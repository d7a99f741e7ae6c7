//! Layout of interleaved vertex attributes in a vertex buffer.
use vstd::prelude::*;

verus! {

/// One vertex attribute: `count` components of type `ty`, each `size`
/// bytes wide.
#[derive(Debug, Clone, Copy, PartialEq, Eq, Structural)]
pub struct BufferElement {
    pub count: i32,
    pub ty: u32,
    pub size: u32,
}

/// The attributes of one vertex, in order, and the byte stride between
/// consecutive vertices.
#[derive(Debug)]
pub struct Layout {
    elements: Vec<BufferElement>,
    stride: i32,
}

/// Bytes taken by the attributes `elements[..n]`.
pub open spec fn stride_of(elements: Seq<BufferElement>, n: int) -> int
    decreases n,
{
    if n <= 0 {
        0
    } else {
        stride_of(elements, n - 1) + elements[n - 1].size * elements[n - 1].count
    }
}

/// Components in the attributes `elements[..n]`.
pub open spec fn components_before(elements: Seq<BufferElement>, n: int) -> int
    decreases n,
{
    if n <= 0 {
        0
    } else {
        components_before(elements, n - 1) + elements[n - 1].count
    }
}

proof fn lemma_stride_prefix(elements: Seq<BufferElement>, e: BufferElement, n: int)
    requires
        0 <= n <= elements.len(),
    ensures
        stride_of(elements.push(e), n) == stride_of(elements, n),
        components_before(elements.push(e), n) == components_before(elements, n),
    decreases n,
{
    if n > 0 {
        lemma_stride_prefix(elements, e, n - 1);
    }
}

impl Layout {
    /// The attributes, in order.
    pub closed spec fn elements_view(&self) -> Seq<BufferElement> {
        self.elements@
    }

    /// The stride stored with the attributes.
    pub closed spec fn stride_view(&self) -> int {
        self.stride as int
    }

    /// The stride is the bytes taken by all attributes, and no attribute
    /// has a negative component count.
    pub closed spec fn wf(&self) -> bool {
        &&& self.stride == stride_of(self.elements@, self.elements@.len() as int)
        &&& forall|i: int| 0 <= i < self.elements@.len() ==> #[trigger] self.elements@[i].count >= 0
    }

    /// A layout without attributes.
    pub fn new() -> (r: Self)
        ensures
            r.wf(),
            r.elements_view() == Seq::<BufferElement>::empty(),
            r.stride_view() == 0,
    {
        Layout { elements: Vec::new(), stride: 0 }
    }

    /// The attributes, in order.
    pub fn elements(&self) -> (r: &Vec<BufferElement>)
        ensures
            r@ == self.elements_view(),
    {
        &self.elements
    }

    /// Bytes from one vertex to the next.
    pub fn stride(&self) -> (r: i32)
        requires
            self.wf(),
        ensures
            r == self.stride_view(),
            r == stride_of(self.elements_view(), self.elements_view().len() as int),
    {
        self.stride
    }

    /// Appends an attribute of `count` components of type `T`, tagged
    /// `ty`, and grows the stride by its width.
    pub fn push<T>(&mut self, count: i32, ty: u32)
        requires
            old(self).wf(),
            count >= 0,
            vstd::layout::size_of::<T>() <= u32::MAX,
            old(self).stride_view() + vstd::layout::size_of::<T>() * count <= i32::MAX,
        ensures
            final(self).wf(),
            final(self).elements_view() == old(self).elements_view().push(
                BufferElement { count, ty, size: vstd::layout::size_of::<T>() as u32 },
            ),
            final(self).stride_view() == old(self).stride_view() + vstd::layout::size_of::<T>()
                * count,
    {
        let size = std::mem::size_of::<T>();
        let e = BufferElement { count, ty, size: size as u32 };
        let ghost before = self.elements@;
        proof {
            lemma_stride_nonneg(before, before.len() as int);
        }
        assert(0 <= size * count <= u32::MAX * i32::MAX) by (nonlinear_arith)
            requires
                size <= u32::MAX,
                0 <= count <= i32::MAX,
        ;
        let grow: i64 = (size as i64) * (count as i64);
        self.elements.push(e);
        self.stride = self.stride + grow as i32;
        proof {
            lemma_stride_prefix(before, e, before.len() as int);
            assert(self.elements@ == before.push(e));
        }
    }

    /// Byte offset of each attribute within a vertex, as a vertex array
    /// states it: the components of the attributes before it, times the
    /// attribute's own component size. `None` when an offset, or the count
    /// of all components, does not fit in `u32`.
    pub fn attribute_offsets(&self) -> (r: Option<Vec<u32>>)
        requires
            self.wf(),
        ensures
            r matches Some(v) ==> v@.len() == self.elements_view().len() && forall|i: int|
                0 <= i < v@.len() ==> #[trigger] v@[i] == components_before(
                    self.elements_view(),
                    i,
                ) * self.elements_view()[i].size,
            r is None <==> offsets_overflow(self.elements_view()),
    {
        let mut out: Vec<u32> = Vec::new();
        let mut components: u64 = 0;
        let mut i: usize = 0;
        while i < self.elements.len()
            invariant
                self.wf(),
                0 <= i <= self.elements@.len(),
                out@.len() == i,
                components == components_before(self.elements@, i as int),
                components <= u32::MAX,
                forall|k: int|
                    0 <= k < i ==> #[trigger] out@[k] == components_before(self.elements@, k)
                        * self.elements@[k].size,
                forall|k: int|
                    0 <= k < i ==> #[trigger] components_before(self.elements@, k)
                        * self.elements@[k].size <= u32::MAX,
            decreases self.elements@.len() - i,
        {
            let e = self.elements[i];
            assert(e.count >= 0);
            assert(components * (e.size as u64) <= u32::MAX as u64 * u32::MAX as u64)
                by (nonlinear_arith)
                requires
                    components <= u32::MAX,
                    e.size <= u32::MAX,
            ;
            let offset: u64 = components * (e.size as u64);
            if offset > u32::MAX as u64 {
                return None;
            }
            out.push(offset as u32);
            components = components + e.count as u64;
            if components > u32::MAX as u64 {
                proof {
                    lemma_components_grow(self.elements@, (i + 1) as int, self.elements@.len() as int);
                }
                return None;
            }
            i = i + 1;
        }
        Some(out)
    }
}

/// Some attribute offset, or the count of all components, exceeds `u32`.
pub open spec fn offsets_overflow(elements: Seq<BufferElement>) -> bool {
    ||| components_before(elements, elements.len() as int) > u32::MAX
    ||| exists|i: int|
        0 <= i < elements.len() && #[trigger] components_before(elements, i) * elements[i].size
            > u32::MAX
}

proof fn lemma_components_grow(elements: Seq<BufferElement>, m: int, n: int)
    requires
        0 <= m <= n <= elements.len(),
        forall|i: int| 0 <= i < elements.len() ==> #[trigger] elements[i].count >= 0,
    ensures
        components_before(elements, m) <= components_before(elements, n),
    decreases n - m,
{
    if m < n {
        lemma_components_grow(elements, m, n - 1);
    }
}

proof fn lemma_stride_nonneg(elements: Seq<BufferElement>, n: int)
    requires
        0 <= n <= elements.len(),
        forall|i: int| 0 <= i < elements.len() ==> #[trigger] elements[i].count >= 0,
    ensures
        stride_of(elements, n) >= 0,
    decreases n,
{
    if n > 0 {
        lemma_stride_nonneg(elements, n - 1);
        let e = elements[n - 1];
        assert(e.size * e.count >= 0) by (nonlinear_arith)
            requires
                e.count >= 0,
        ;
    }
}

impl Default for Layout {
    fn default() -> (r: Self)
        ensures
            r.wf(),
            r.elements_view() == Seq::<BufferElement>::empty(),
    {
        Layout::new()
    }
}

} // verus!
