use vstd::prelude::*;

use crate::grads::{grads_wf, GradientsParams};
use crate::param::ParamId;
use crate::tensor::{add_ok, add_view, tensor_wf, GradientTensor, TensorView};

verus! {

/// The parameter set a module tree exposes to traversal: every parameter the
/// module and its submodules own, each exactly once, named by its stable id.
/// The traversal would also present each parameter's current tensor value,
/// but the accumulator never reads it, so the model keeps only the ids.
pub struct Module {
    params: Vec<ParamId>,
}

impl Module {
    /// The ids the module's traversal visits, in visiting order.
    pub closed spec fn param_seq(self) -> Seq<ParamId> {
        self.params@
    }

    /// The set of parameter ids the module owns.
    pub open spec fn param_ids(self) -> Set<ParamId> {
        self.param_seq().to_set()
    }

    /// A module's traversal presents every parameter exactly once.
    pub open spec fn wf(self) -> bool {
        forall|i: int, j: int|
            0 <= i < j < self.param_seq().len() ==> self.param_seq()[i] != self.param_seq()[j]
    }

    /// Describe a module by the ids of the parameters its traversal visits.
    pub fn new(params: Vec<ParamId>) -> (r: Module)
        ensures
            r.param_seq() == params@,
    {
        Module { params }
    }
}

/// The running set after an accumulation step over one module: every visited
/// parameter id that the new set supplies a gradient for is merged in (summed
/// elementwise with the running gradient if one was there), every other
/// running entry stays untouched, and entries of the new set that the module
/// never visits are dropped.
pub open spec fn merged(
    run: Map<ParamId, TensorView>,
    new: Map<ParamId, TensorView>,
    visited: Set<ParamId>,
) -> Map<ParamId, TensorView> {
    Map::new(
        |k: ParamId| run.dom().contains(k) || (new.dom().contains(k) && visited.contains(k)),
        |k: ParamId|
            if new.dom().contains(k) && visited.contains(k) {
                if run.dom().contains(k) {
                    add_view(run[k], new[k])
                } else {
                    new[k]
                }
            } else {
                run[k]
            },
    )
}

/// Wherever a visited parameter has a gradient in both the running set and
/// the new set, the two tensors share one shape and their elementwise sums
/// fit the element type.
pub open spec fn accumulate_compat(
    run: Map<ParamId, TensorView>,
    new: Map<ParamId, TensorView>,
    visited: Set<ParamId>,
) -> bool {
    forall|k: ParamId|
        run.dom().contains(k) && new.dom().contains(k) && #[trigger] visited.contains(k)
            ==> run[k].0 == new[k].0 && add_ok(run[k].1, new[k].1)
}

/// The running set after the merge for a single id: if the new set supplies a
/// gradient for it, the running entry becomes that gradient, summed with the
/// previous running entry if there was one; otherwise the running set is
/// unchanged.
pub open spec fn merge_one(
    run: Map<ParamId, TensorView>,
    new: Map<ParamId, TensorView>,
    k: ParamId,
) -> Map<ParamId, TensorView> {
    if new.dom().contains(k) {
        run.insert(
            k,
            if run.dom().contains(k) {
                add_view(run[k], new[k])
            } else {
                new[k]
            },
        )
    } else {
        run
    }
}

/// Merging preserves well-formedness of every tensor in the running set.
pub proof fn lemma_merged_wf(
    run: Map<ParamId, TensorView>,
    new: Map<ParamId, TensorView>,
    visited: Set<ParamId>,
)
    requires
        grads_wf(run),
        grads_wf(new),
        accumulate_compat(run, new, visited),
    ensures
        grads_wf(merged(run, new, visited)),
{
    assert forall|k: ParamId| #[trigger]
        merged(run, new, visited).dom().contains(k) implies tensor_wf(
        merged(run, new, visited)[k],
    ) by {
        if new.dom().contains(k) && visited.contains(k) && run.dom().contains(k) {
            assert(tensor_wf(run[k]));
            assert(add_view(run[k], new[k]).1.len() == run[k].1.len());
        }
    }
}

proof fn lemma_take_succ_to_set(s: Seq<ParamId>, i: int)
    requires
        0 <= i < s.len(),
    ensures
        s.take(i + 1).to_set() == s.take(i).to_set().insert(s[i]),
{
    assert(s.take(i + 1) =~= s.take(i).push(s[i]));
    assert forall|x: ParamId|
        s.take(i + 1).to_set().contains(x) <==> s.take(i).to_set().insert(s[i]).contains(
            x,
        ) by {
        if s.take(i + 1).contains(x) {
            let j = choose|j: int| 0 <= j < i + 1 && #[trigger] s.take(i + 1)[j] == x;
            if j < i {
                assert(s.take(i)[j] == x);
                assert(s.take(i).contains(x));
            }
        }
        if s.take(i).contains(x) {
            let j = choose|j: int| 0 <= j < i && #[trigger] s.take(i)[j] == x;
            assert(s.take(i + 1)[j] == x);
            assert(s.take(i + 1).contains(x));
        }
        if x == s[i] {
            assert(s.take(i + 1)[i] == x);
            assert(s.take(i + 1).contains(x));
        }
    }
    assert(s.take(i + 1).to_set() =~= s.take(i).to_set().insert(s[i]));
}

proof fn lemma_unvisited_prefix(s: Seq<ParamId>, i: int)
    requires
        0 <= i < s.len(),
        forall|a: int, b: int| 0 <= a < b < s.len() ==> s[a] != s[b],
    ensures
        !s.take(i).to_set().contains(s[i]),
        s.to_set().contains(s[i]),
{
    if s.take(i).to_set().contains(s[i]) {
        let j = choose|j: int| 0 <= j < i && #[trigger] s.take(i)[j] == s[i];
        assert(s[j] == s[i]);
        assert(false);
    }
    assert(s.contains(s[i]));
}

/// One visit of the traversal: the four-step merge for a single parameter id.
/// Takes the new gradient for the id out of `new_grads` (if any), takes the
/// running gradient out of `run` (if any), sums them where both exist, and
/// registers the result back into `run` — writing nothing when neither side
/// holds a gradient for the id.
fn merge_param(run: &mut GradientsParams, new_grads: &mut GradientsParams, id: &ParamId)
    requires
        old(run).inv(),
        old(new_grads).inv(),
        (old(run)@.dom().contains(*id) && old(new_grads)@.dom().contains(*id)) ==> {
            &&& tensor_wf(old(run)@[*id])
            &&& tensor_wf(old(new_grads)@[*id])
            &&& old(run)@[*id].0 == old(new_grads)@[*id].0
            &&& add_ok(old(run)@[*id].1, old(new_grads)@[*id].1)
        },
    ensures
        final(run).inv(),
        final(new_grads).inv(),
        final(new_grads)@ == old(new_grads)@.remove(*id),
        final(run)@ == merge_one(old(run)@, old(new_grads)@, *id),
{
    let updated: GradientTensor = match new_grads.remove(id) {
        Some(new_t) => match run.remove(id) {
            Some(old_t) => old_t.add(new_t),
            None => new_t,
        },
        None => match run.remove(id) {
            Some(old_t) => old_t,
            None => {
                proof {
                    assert(old(run)@.remove(*id) =~= old(run)@);
                }
                return;
            },
        },
    };
    run.register(*id, updated);
    proof {
        assert(run@ =~= merge_one(old(run)@, old(new_grads)@, *id));
    }
}

/// Accumulates per-parameter gradients across successive backward passes. It
/// owns one running gradient set for its whole lifetime: between calls, that
/// set holds at most one entry per parameter id, the elementwise sum of every
/// gradient accumulated for that parameter since the last drain.
pub struct GradientsAccumulator {
    grads: GradientsParams,
}

impl View for GradientsAccumulator {
    type V = Map<ParamId, TensorView>;

    closed spec fn view(&self) -> Map<ParamId, TensorView> {
        self.grads@
    }
}

impl GradientsAccumulator {
    /// The running set keeps at most one entry per parameter id.
    pub closed spec fn inv(self) -> bool {
        self.grads.inv()
    }

    /// Create a new gradients accumulator, whose running set is empty.
    pub fn new() -> (r: GradientsAccumulator)
        ensures
            r.inv(),
            r@ == Map::<ParamId, TensorView>::empty(),
    {
        GradientsAccumulator { grads: GradientsParams::new() }
    }

    /// Accumulate the given gradients for each parameter of the given module:
    /// every gradient of `new_grads` whose parameter the module visits is
    /// merged into the running set by elementwise summation, every running
    /// entry whose id `new_grads` does not supply stays untouched, and
    /// entries of `new_grads` that the module never visits are dropped with
    /// it. `new_grads` is consumed.
    pub fn accumulate(&mut self, module: &Module, new_grads: GradientsParams)
        requires
            old(self).inv(),
            new_grads.inv(),
            module.wf(),
            grads_wf(old(self)@),
            grads_wf(new_grads@),
            accumulate_compat(old(self)@, new_grads@, module.param_ids()),
        ensures
            final(self).inv(),
            final(self)@ == merged(old(self)@, new_grads@, module.param_ids()),
            grads_wf(final(self)@),
    {
        let mut new_grads = new_grads;
        let ghost run0 = self.grads@;
        let ghost new0 = new_grads@;
        let n = module.params.len();
        let mut i: usize = 0;
        while i < n
            invariant
                i <= n,
                n == module.param_seq().len(),
                module.wf(),
                self.grads.inv(),
                new_grads.inv(),
                grads_wf(run0),
                grads_wf(new0),
                accumulate_compat(run0, new0, module.param_ids()),
                self.grads@ == merged(run0, new0, module.param_seq().take(i as int).to_set()),
                new_grads@ == new0.remove_keys(module.param_seq().take(i as int).to_set()),
            decreases n - i,
        {
            let id = module.params[i];
            let ghost visited = module.param_seq().take(i as int).to_set();
            proof {
                lemma_unvisited_prefix(module.param_seq(), i as int);
                lemma_take_succ_to_set(module.param_seq(), i as int);
            }
            merge_param(&mut self.grads, &mut new_grads, &id);
            proof {
                assert(new_grads@ =~= new0.remove_keys(visited.insert(id)));
                assert(self.grads@ =~= merged(run0, new0, visited.insert(id)));
            }
            i = i + 1;
        }
        proof {
            assert(module.param_seq().take(n as int) =~= module.param_seq());
            lemma_merged_wf(run0, new0, module.param_ids());
        }
    }

    /// Return the accumulated gradients and reset the accumulator's running
    /// set to a fresh empty one, in one move.
    pub fn grads(&mut self) -> (r: GradientsParams)
        requires
            old(self).inv(),
        ensures
            final(self).inv(),
            r.inv(),
            r@ == old(self)@,
            final(self)@ == Map::<ParamId, TensorView>::empty(),
    {
        let mut out = GradientsParams::new();
        core::mem::swap(&mut self.grads, &mut out);
        out
    }
}

impl Default for GradientsAccumulator {
    /// A default accumulator is a new, empty one.
    fn default() -> (r: Self)
        ensures
            r.inv(),
            r@ == Map::<ParamId, TensorView>::empty(),
    {
        Self::new()
    }
}

} // verus!
