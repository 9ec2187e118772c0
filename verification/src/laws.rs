use vstd::prelude::*;

use crate::accum::merged;
use crate::param::ParamId;
use crate::tensor::{add_data, add_view, TensorView};

verus! {

/// The total elementwise merge of two gradient sets: every id present in
/// either keeps its gradient, and an id present in both gets the elementwise
/// sum; ids present in neither contribute no entry.
pub open spec fn elementwise_total(
    a: Map<ParamId, TensorView>,
    b: Map<ParamId, TensorView>,
) -> Map<ParamId, TensorView> {
    Map::new(
        |k: ParamId| a.dom().contains(k) || b.dom().contains(k),
        |k: ParamId|
            if a.dom().contains(k) && b.dom().contains(k) {
                add_view(a[k], b[k])
            } else if a.dom().contains(k) {
                a[k]
            } else {
                b[k]
            },
    )
}

/// Wherever both sets carry a gradient for one id, the two tensors share one
/// shape and their data buffers pair up point for point.
pub open spec fn shapes_agree(a: Map<ParamId, TensorView>, b: Map<ParamId, TensorView>) -> bool {
    forall|k: ParamId|
        #[trigger] a.dom().contains(k) && #[trigger] b.dom().contains(k) ==> a[k].0 == b[k].0
            && a[k].1.len() == b[k].1.len()
}

/// Law: a single accumulation step into an empty running set passes the new
/// gradient set through unchanged, provided every id it supplies is one of
/// the visited parameters.
pub proof fn lemma_single_step_passthrough(new: Map<ParamId, TensorView>, visited: Set<ParamId>)
    requires
        new.dom().subset_of(visited),
    ensures
        merged(Map::empty(), new, visited) == new,
{
    assert(merged(Map::empty(), new, visited) =~= new);
}

/// Law: accumulating gradient set `a` and then gradient set `b` into an
/// empty running set yields, for every id present in `a` or `b`, the
/// elementwise sum of their gradients for that id — a missing id in one set
/// contributing nothing — and no entry for any other id; provided every id
/// either set supplies is one of the visited parameters.
pub proof fn lemma_two_step_additivity(
    a: Map<ParamId, TensorView>,
    b: Map<ParamId, TensorView>,
    visited: Set<ParamId>,
)
    requires
        a.dom().subset_of(visited),
        b.dom().subset_of(visited),
    ensures
        merged(merged(Map::empty(), a, visited), b, visited) == elementwise_total(a, b),
{
    lemma_single_step_passthrough(a, visited);
    assert(merged(a, b, visited) =~= elementwise_total(a, b));
}

/// Law: accumulating `a` then `b` into an empty running set yields the same
/// result as accumulating `b` then `a`, provided every id either set
/// supplies is visited and the two sets agree on the shape of every id they
/// share.
pub proof fn lemma_order_independence(
    a: Map<ParamId, TensorView>,
    b: Map<ParamId, TensorView>,
    visited: Set<ParamId>,
)
    requires
        a.dom().subset_of(visited),
        b.dom().subset_of(visited),
        shapes_agree(a, b),
    ensures
        merged(merged(Map::empty(), a, visited), b, visited) == merged(
            merged(Map::empty(), b, visited),
            a,
            visited,
        ),
{
    lemma_two_step_additivity(a, b, visited);
    lemma_two_step_additivity(b, a, visited);
    assert forall|k: ParamId|
        #[trigger] a.dom().contains(k) && #[trigger] b.dom().contains(k) implies add_view(
        a[k],
        b[k],
    ) == add_view(b[k], a[k]) by {
        assert(add_data(a[k].1, b[k].1) =~= add_data(b[k].1, a[k].1));
    }
    assert(elementwise_total(a, b) =~= elementwise_total(b, a));
}

/// Law: one accumulation step never grows the running set beyond the ids
/// that appeared in it or in the supplied gradient set, so the number of
/// entries a drain returns never exceeds the number of distinct parameter
/// ids accumulated since the last drain.
pub proof fn lemma_count_invariant(
    run: Map<ParamId, TensorView>,
    new: Map<ParamId, TensorView>,
    visited: Set<ParamId>,
)
    requires
        run.dom().finite(),
        new.dom().finite(),
    ensures
        merged(run, new, visited).dom().subset_of(run.dom().union(new.dom())),
        merged(run, new, visited).dom().finite(),
        merged(run, new, visited).dom().len() <= run.dom().len() + new.dom().len(),
{
    let d = merged(run, new, visited).dom();
    let u = run.dom().union(new.dom());
    assert(d.subset_of(u));
    vstd::set_lib::lemma_len_union(run.dom(), new.dom());
    vstd::set_lib::lemma_len_subset(d, u);
}

} // verus!
