//! Sizes and alignments of the structures that the hardware and the ROM read.
use vstd::prelude::*;

verus! {

/// Size and alignment of a type.
#[derive(Clone, Copy, Debug, PartialEq, Eq)]
pub struct Layout {
    pub size: usize,
    pub align: usize,
}

/// The next multiple of an alignment.
pub open spec fn aligned(offset: int, align: int) -> int {
    (offset + align - 1) / align * align
}

/// Where the first `count` fields end that are laid out one after the other.
pub open spec fn fields_end(fields: Seq<Layout>, count: nat) -> int
    decreases count,
{
    if count == 0 {
        0
    } else {
        let field = fields[count - 1];
        aligned(fields_end(fields, (count - 1) as nat), field.align as int) + field.size
    }
}

/// The strictest alignment among the first `count` fields and a minimum.
pub open spec fn fields_align(fields: Seq<Layout>, count: nat, minimum: int) -> int
    decreases count,
{
    if count == 0 {
        minimum
    } else {
        let before = fields_align(fields, (count - 1) as nat, minimum);
        if fields[count - 1].align > before {
            fields[count - 1].align as int
        } else {
            before
        }
    }
}

/// Whether a field is one that the layout of a structure is computed for.
pub open spec fn is_field(field: Layout) -> bool {
    field.size <= 0x1_0000 && 1 <= field.align <= 64
}

/// Aligning goes to the next multiple of the alignment and no further.
pub proof fn law_aligned(offset: int, align: int)
    requires
        offset >= 0,
        align >= 1,
    ensures
        aligned(offset, align) % align == 0,
        offset <= aligned(offset, align) < offset + align,
{
    let n = offset + align - 1;
    vstd::arithmetic::div_mod::lemma_fundamental_div_mod(n, align);
    vstd::arithmetic::div_mod::lemma_mod_bound(n, align);
    vstd::arithmetic::mul::lemma_mul_is_commutative(align, n / align);
    vstd::arithmetic::div_mod::lemma_mod_multiples_basic(n / align, align);
}

proof fn lemma_aligned(offset: int, align: int)
    requires
        offset >= 0,
        1 <= align <= 64,
    ensures
        offset <= aligned(offset, align) < offset + 64,
{
    let n = offset + align - 1;
    vstd::arithmetic::div_mod::lemma_fundamental_div_mod(n, align);
    vstd::arithmetic::mul::lemma_mul_is_commutative(align, n / align);
    vstd::arithmetic::div_mod::lemma_mod_bound(n, align);
}

fn align_up(offset: usize, align: usize) -> (next: usize)
    requires
        offset <= 0x100_0000,
        1 <= align <= 64,
    ensures
        next == aligned(offset as int, align as int),
        offset <= next < offset + 64,
{
    proof {
        lemma_aligned(offset as int, align as int);
        let n = offset + align - 1;
        vstd::arithmetic::div_mod::lemma_fundamental_div_mod(n, align as int);
        vstd::arithmetic::mul::lemma_mul_is_commutative(align as int, n / align as int);
    }
    (offset + align - 1) / align * align
}

/// The layout of a structure whose fields keep their order, aligned to at least `minimum`.
pub fn struct_layout(fields: &[Layout], minimum: usize) -> (layout: Layout)
    requires
        fields@.len() <= 16,
        forall|i: int| 0 <= i < fields@.len() ==> is_field(#[trigger] fields@[i]),
        1 <= minimum <= 64,
    ensures
        layout.align == fields_align(fields@, fields@.len(), minimum as int),
        layout.size == aligned(fields_end(fields@, fields@.len()), layout.align as int),
{
    let mut end: usize = 0;
    let mut align: usize = minimum;
    let mut i: usize = 0;
    while i < fields.len()
        invariant
            i <= fields@.len() <= 16,
            forall|j: int| 0 <= j < fields@.len() ==> is_field(#[trigger] fields@[j]),
            end == fields_end(fields@, i as nat),
            end <= i * 0x1_0040,
            align == fields_align(fields@, i as nat, minimum as int),
            1 <= align <= 64,
        decreases fields@.len() - i,
    {
        let field = fields[i];
        assert(is_field(fields@[i as int]));
        end = align_up(end, field.align) + field.size;
        if field.align > align {
            align = field.align;
        }
        i += 1;
    }
    Layout { size: align_up(end, align), align }
}

/// The layout of an array.
pub fn array_layout(element: Layout, count: usize) -> (layout: Layout)
    requires
        element.size * count <= usize::MAX,
    ensures
        layout.size == element.size * count,
        layout.align == element.align,
{
    Layout { size: element.size * count, align: element.align }
}

/// A byte.
pub fn byte_layout() -> (layout: Layout)
    ensures
        layout == (Layout { size: 1, align: 1 }),
{
    Layout { size: 1, align: 1 }
}

/// A 32-bit word, or a pointer of the target.
pub fn word_layout() -> (layout: Layout)
    ensures
        layout == (Layout { size: 4, align: 4 }),
{
    Layout { size: 4, align: 4 }
}

} // verus!
