use vstd::prelude::*;

use crate::param::ParamId;
use crate::tensor::{GradientTensor, TensorView, tensor_wf};

verus! {

/// The mapping a sequence of (id, tensor) entries stands for. Later entries
/// would take precedence, but the collection keeps ids unique, so no two
/// entries ever share one.
pub open spec fn map_of(entries: Seq<(ParamId, GradientTensor)>) -> Map<ParamId, TensorView>
    decreases entries.len(),
{
    if entries.len() == 0 {
        Map::empty()
    } else {
        map_of(entries.drop_last()).insert(entries.last().0, entries.last().1@)
    }
}

/// No parameter id occurs twice among the entries.
pub open spec fn keys_distinct(entries: Seq<(ParamId, GradientTensor)>) -> bool {
    forall|i: int, j: int|
        0 <= i < j < entries.len() ==> (#[trigger] entries[i]).0 != (#[trigger] entries[j]).0
}

/// Every tensor of the set is well formed.
pub open spec fn grads_wf(m: Map<ParamId, TensorView>) -> bool {
    forall|k: ParamId| #[trigger] m.dom().contains(k) ==> tensor_wf(m[k])
}

proof fn lemma_map_of_contains(entries: Seq<(ParamId, GradientTensor)>, id: ParamId)
    ensures
        map_of(entries).dom().contains(id) <==> exists|i: int|
            0 <= i < entries.len() && (#[trigger] entries[i]).0 == id,
    decreases entries.len(),
{
    if entries.len() > 0 {
        lemma_map_of_contains(entries.drop_last(), id);
        if map_of(entries).dom().contains(id) {
            if entries.last().0 == id {
                assert(entries[entries.len() - 1].0 == id);
            } else {
                let i = choose|i: int|
                    0 <= i < entries.drop_last().len() && (#[trigger] entries.drop_last()[i]).0
                        == id;
                assert(entries[i].0 == id);
            }
        }
        if exists|i: int| 0 <= i < entries.len() && (#[trigger] entries[i]).0 == id {
            let i = choose|i: int| 0 <= i < entries.len() && (#[trigger] entries[i]).0 == id;
            if i < entries.len() - 1 {
                assert(entries.drop_last()[i].0 == id);
            }
        }
    }
}

proof fn lemma_keys_distinct_drop_last(entries: Seq<(ParamId, GradientTensor)>)
    requires
        keys_distinct(entries),
        entries.len() > 0,
    ensures
        keys_distinct(entries.drop_last()),
{
    assert forall|i: int, j: int| 0 <= i < j < entries.drop_last().len() implies (
    #[trigger] entries.drop_last()[i]).0 != (#[trigger] entries.drop_last()[j]).0 by {
        assert(entries[i].0 != entries[j].0);
    }
}

proof fn lemma_map_of_index(entries: Seq<(ParamId, GradientTensor)>, i: int)
    requires
        keys_distinct(entries),
        0 <= i < entries.len(),
    ensures
        map_of(entries).dom().contains(entries[i].0),
        map_of(entries)[entries[i].0] == entries[i].1@,
    decreases entries.len(),
{
    if i < entries.len() - 1 {
        lemma_keys_distinct_drop_last(entries);
        lemma_map_of_index(entries.drop_last(), i);
        assert(entries.drop_last()[i] == entries[i]);
        assert(entries[i].0 != entries.last().0);
    }
}

proof fn lemma_keys_distinct_remove(entries: Seq<(ParamId, GradientTensor)>, i: int)
    requires
        keys_distinct(entries),
        0 <= i < entries.len(),
    ensures
        keys_distinct(entries.remove(i)),
{
    assert forall|a: int, b: int| 0 <= a < b < entries.remove(i).len() implies (
    #[trigger] entries.remove(i)[a]).0 != (#[trigger] entries.remove(i)[b]).0 by {
        let a0: int = if a < i {
            a
        } else {
            a + 1
        };
        let b0: int = if b < i {
            b
        } else {
            b + 1
        };
        assert(entries.remove(i)[a] == entries[a0]);
        assert(entries.remove(i)[b] == entries[b0]);
        assert(entries[a0].0 != entries[b0].0);
    }
}

proof fn lemma_map_of_remove(entries: Seq<(ParamId, GradientTensor)>, i: int)
    requires
        keys_distinct(entries),
        0 <= i < entries.len(),
    ensures
        map_of(entries.remove(i)) == map_of(entries).remove(entries[i].0),
    decreases entries.len(),
{
    if i == entries.len() - 1 {
        assert(entries.remove(i) =~= entries.drop_last());
        lemma_map_of_contains(entries.drop_last(), entries[i].0);
        lemma_keys_distinct_drop_last(entries);
        assert forall|j: int|
            0 <= j < entries.drop_last().len() implies (#[trigger] entries.drop_last()[j]).0
            != entries[i].0 by {
            assert(entries.drop_last()[j] == entries[j]);
            assert(entries[j].0 != entries[i].0);
        }
        assert(!map_of(entries.drop_last()).dom().contains(entries[i].0));
        assert(map_of(entries.remove(i)) =~= map_of(entries).remove(entries[i].0));
    } else {
        lemma_keys_distinct_drop_last(entries);
        lemma_map_of_remove(entries.drop_last(), i);
        assert(entries.drop_last()[i] == entries[i]);
        assert(entries.remove(i).drop_last() =~= entries.drop_last().remove(i));
        assert(entries.remove(i).last() == entries.last());
        assert(map_of(entries.remove(i)) == map_of(entries.drop_last().remove(i)).insert(
            entries.last().0,
            entries.last().1@,
        ));
        assert(entries[i].0 != entries.last().0);
        assert(map_of(entries.drop_last()).remove(entries[i].0).insert(
            entries.last().0,
            entries.last().1@,
        ) =~= map_of(entries).remove(entries[i].0));
    }
}

proof fn lemma_map_of_push(entries: Seq<(ParamId, GradientTensor)>, e: (ParamId, GradientTensor))
    ensures
        map_of(entries.push(e)) == map_of(entries).insert(e.0, e.1@),
{
    assert(entries.push(e).drop_last() =~= entries);
    assert(entries.push(e).last() == e);
}

proof fn lemma_map_of_len(entries: Seq<(ParamId, GradientTensor)>)
    requires
        keys_distinct(entries),
    ensures
        map_of(entries).dom().finite(),
        map_of(entries).dom().len() == entries.len(),
    decreases entries.len(),
{
    if entries.len() > 0 {
        lemma_keys_distinct_drop_last(entries);
        lemma_map_of_len(entries.drop_last());
        lemma_map_of_contains(entries.drop_last(), entries.last().0);
        assert forall|j: int|
            0 <= j < entries.drop_last().len() implies (#[trigger] entries.drop_last()[j]).0
            != entries.last().0 by {
            assert(entries.drop_last()[j] == entries[j]);
            assert(entries[j].0 != entries[entries.len() - 1].0);
        }
        assert(!map_of(entries.drop_last()).dom().contains(entries.last().0));
    }
}

/// A keyed collection of gradient tensors: at most one per parameter id,
/// insertion order irrelevant. Each instance is exclusively owned by whoever
/// holds it, and entries move out of it rather than being copied.
pub struct GradientsParams {
    entries: Vec<(ParamId, GradientTensor)>,
}

impl View for GradientsParams {
    type V = Map<ParamId, TensorView>;

    closed spec fn view(&self) -> Map<ParamId, TensorView> {
        map_of(self.entries@)
    }
}

impl GradientsParams {
    /// The representation keeps at most one entry per parameter id.
    pub closed spec fn inv(self) -> bool {
        keys_distinct(self.entries@)
    }

    /// Create an empty gradient set.
    pub fn new() -> (r: GradientsParams)
        ensures
            r.inv(),
            r@ == Map::<ParamId, TensorView>::empty(),
    {
        GradientsParams { entries: Vec::new() }
    }

    /// Take the gradient registered for the given id out of the set, if there
    /// is one, leaving the rest untouched.
    pub fn remove(&mut self, id: &ParamId) -> (r: Option<GradientTensor>)
        requires
            old(self).inv(),
        ensures
            final(self).inv(),
            final(self)@ == old(self)@.remove(*id),
            match r {
                Some(t) => old(self)@.dom().contains(*id) && t@ == old(self)@[*id],
                None => !old(self)@.dom().contains(*id) && final(self)@ == old(self)@,
            },
    {
        let mut i: usize = 0;
        while i < self.entries.len()
            invariant
                old(self).inv(),
                *self == *old(self),
                i <= self.entries@.len(),
                forall|j: int| 0 <= j < i ==> (#[trigger] self.entries@[j]).0 != *id,
            decreases self.entries@.len() - i,
        {
            if self.entries[i].0 == *id {
                proof {
                    lemma_map_of_index(self.entries@, i as int);
                    lemma_map_of_remove(self.entries@, i as int);
                    lemma_keys_distinct_remove(self.entries@, i as int);
                }
                let (_k, t) = self.entries.remove(i);
                return Some(t);
            }
            i = i + 1;
        }
        proof {
            lemma_map_of_contains(self.entries@, *id);
            assert(!old(self)@.dom().contains(*id));
            assert(old(self)@.remove(*id) =~= old(self)@);
        }
        None
    }

    /// Register a gradient for the given id, replacing whatever the set held
    /// for that id before.
    pub fn register(&mut self, id: ParamId, tensor: GradientTensor)
        requires
            old(self).inv(),
        ensures
            final(self).inv(),
            final(self)@ == old(self)@.insert(id, tensor@),
    {
        let _removed = self.remove(&id);
        proof {
            lemma_map_of_contains(self.entries@, id);
        }
        let ghost mid = self.entries@;
        self.entries.push((id, tensor));
        proof {
            lemma_map_of_push(mid, (id, tensor));
            assert(old(self)@.remove(id).insert(id, tensor@) =~= old(self)@.insert(id, tensor@));
            assert forall|a: int, b: int| 0 <= a < b < self.entries@.len() implies (
            #[trigger] self.entries@[a]).0 != (#[trigger] self.entries@[b]).0 by {
                if b < self.entries@.len() - 1 {
                    assert(mid[a].0 != mid[b].0);
                } else {
                    assert(self.entries@[a] == mid[a]);
                }
            }
        }
    }

    /// Whether the set holds no gradient at all.
    pub fn is_empty(&self) -> (r: bool)
        ensures
            r <==> self@ == Map::<ParamId, TensorView>::empty(),
    {
        let r = self.entries.len() == 0;
        proof {
            if self.entries@.len() == 0 {
                assert(self@ =~= Map::<ParamId, TensorView>::empty());
            } else {
                assert(self@.dom().contains(self.entries@.last().0));
            }
        }
        r
    }

    /// How many parameter ids the set holds a gradient for.
    pub fn len(&self) -> (r: usize)
        requires
            self.inv(),
        ensures
            r == self@.dom().len(),
    {
        proof {
            lemma_map_of_len(self.entries@);
        }
        self.entries.len()
    }
}

} // verus!
