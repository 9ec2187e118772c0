use vstd::prelude::*;

verus! {

/// The view of a gradient tensor: its shape and its flat, row-major data.
pub type TensorView = (Seq<usize>, Seq<i64>);

/// How many elements a tensor of the given shape holds: the product of its
/// dimensions. An empty shape describes a scalar, which holds one element.
pub open spec fn shape_volume(shape: Seq<usize>) -> int
    decreases shape.len(),
{
    if shape.len() == 0 {
        1
    } else {
        shape_volume(shape.drop_last()) * shape.last()
    }
}

/// A tensor view is well formed when its data holds exactly one element per
/// point of its shape.
pub open spec fn tensor_wf(t: TensorView) -> bool {
    t.1.len() == shape_volume(t.0)
}

/// Elementwise addition at one data point, as the contracts state it.
pub open spec fn add_elem(a: i64, b: i64) -> i64 {
    (a + b) as i64
}

/// The two data buffers pair up point for point and no pointwise sum leaves
/// the element type's range.
pub open spec fn add_ok(a: Seq<i64>, b: Seq<i64>) -> bool {
    &&& a.len() == b.len()
    &&& forall|i: int| 0 <= i < a.len() ==> i64::MIN <= #[trigger] a[i] + b[i] <= i64::MAX
}

/// The data buffer of an elementwise sum.
pub open spec fn add_data(a: Seq<i64>, b: Seq<i64>) -> Seq<i64> {
    Seq::new(a.len(), |i: int| add_elem(a[i], b[i]))
}

/// The view of the elementwise sum of two tensors of one shape: that shape,
/// and the pointwise sums of the data.
pub open spec fn add_view(a: TensorView, b: TensorView) -> TensorView {
    (a.0, add_data(a.1, b.1))
}

/// An immutable numeric gradient value of fixed shape. The elements are held
/// as fixed-width integers standing for the numeric entries of the backend's
/// tensor; the accumulator never reads them other than to sum them.
#[derive(PartialEq, Eq, Debug)]
pub struct GradientTensor {
    shape: Vec<usize>,
    data: Vec<i64>,
}

impl View for GradientTensor {
    type V = TensorView;

    closed spec fn view(&self) -> TensorView {
        (self.shape@, self.data@)
    }
}

impl GradientTensor {
    /// Build a tensor from its shape and its flat, row-major data.
    pub fn new(shape: Vec<usize>, data: Vec<i64>) -> (r: GradientTensor)
        requires
            data@.len() == shape_volume(shape@),
        ensures
            r@ == (shape@, data@),
            tensor_wf(r@),
    {
        GradientTensor { shape, data }
    }

    /// The tensor's shape.
    pub fn shape(&self) -> (r: &Vec<usize>)
        ensures
            r@ == self@.0,
    {
        &self.shape
    }

    /// The tensor's flat data.
    pub fn data(&self) -> (r: &Vec<i64>)
        ensures
            r@ == self@.1,
    {
        &self.data
    }

    /// The elementwise sum of two gradients of one shape, the merge primitive
    /// of the accumulator. Both operands are consumed.
    pub fn add(self, other: GradientTensor) -> (r: GradientTensor)
        requires
            tensor_wf(self@),
            tensor_wf(other@),
            self@.0 == other@.0,
            add_ok(self@.1, other@.1),
        ensures
            r@ == add_view(self@, other@),
            tensor_wf(r@),
    {
        let GradientTensor { shape, data: a } = self;
        let GradientTensor { shape: _other_shape, data: b } = other;
        let mut data: Vec<i64> = Vec::new();
        let mut i: usize = 0;
        while i < a.len()
            invariant
                i <= a@.len(),
                a@.len() == b@.len(),
                add_ok(a@, b@),
                data@.len() == i,
                forall|j: int| 0 <= j < i ==> data@[j] == add_elem(a@[j], b@[j]),
            decreases a@.len() - i,
        {
            data.push(a[i] + b[i]);
            i = i + 1;
        }
        proof {
            assert(data@ =~= add_data(a@, b@));
        }
        GradientTensor { shape, data }
    }
}

} // verus!
