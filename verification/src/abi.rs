//! Layouts that the hardware, its ROM and the firmware rely on.
use crate::layout::{
    aligned, array_layout, byte_layout, fields_align, fields_end, struct_layout, word_layout,
    Layout,
};
use crate::padding::HASH_DMA_BYTES;
use crate::pke::curve::{PkeEccCurve, PkeEccInitParam};
use crate::pke::engine::RomLib;
use crate::spacc_cipher::{CipherDmaStorage, SymInputNode, SymOutputNode, AES_BLOCK_BYTES};
use crate::spacc_hash::{HashDmaStorage, HashNode};
use vstd::prelude::*;

verus! {

/// Alignment of memory that an engine accesses on its own.
pub const DMA_ALIGN: usize = 32;

/// The layout of a structure of `count` words.
fn words(count: usize) -> (layout: Layout)
    requires
        1 <= count <= 16,
    ensures
        layout == (Layout { size: (4 * count) as usize, align: 4 }),
{
    let word = word_layout();
    let mut fields: Vec<Layout> = Vec::new();
    let mut i: usize = 0;
    while i < count
        invariant
            i <= count <= 16,
            fields@.len() == i,
            word == (Layout { size: 4, align: 4 }),
            forall|j: int| 0 <= j < i ==> #[trigger] fields@[j] == word,
        decreases count - i,
    {
        fields.push(word);
        i += 1;
    }
    proof {
        lemma_words(fields@, count as nat);
    }
    struct_layout(fields.as_slice(), 1)
}

proof fn lemma_words(fields: Seq<Layout>, count: nat)
    requires
        count <= fields.len(),
        forall|j: int|
            0 <= j < fields.len() ==> #[trigger] fields[j] == (Layout { size: 4, align: 4 }),
    ensures
        fields_end(fields, count) == 4 * count,
        fields_align(fields, count, 1) == if count == 0 {
            1int
        } else {
            4
        },
    decreases count,
{
    if count > 0 {
        lemma_words(fields, (count - 1) as nat);
        assert(fields[count - 1] == Layout { size: 4, align: 4 });
    }
}

impl HashNode {
    /// Layout of one hash descriptor: four words.
    pub fn layout() -> (layout: Layout)
        ensures
            layout == (Layout { size: 16, align: 4 }),
    {
        words(4)
    }
}

impl HashDmaStorage {
    /// Layout of the hash memory: two descriptors, then the message buffer.
    pub fn layout() -> (layout: Layout)
        ensures
            layout == (Layout { size: 4256, align: 32 }),
    {
        let node = HashNode::layout();
        let byte = byte_layout();
        proof {
            assert(node.size * 2 == 32);
            assert(byte.size * HASH_DMA_BYTES == HASH_DMA_BYTES) by (nonlinear_arith)
                requires
                    byte.size == 1,
            ;
            assert(HASH_DMA_BYTES == 4224);
        }
        let fields = [array_layout(node, 2), array_layout(byte, HASH_DMA_BYTES)];
        proof {
            assert(fields@[0] == Layout { size: 32, align: 4 });
            assert(fields@[1] == Layout { size: 4224, align: 1 });
            assert(aligned(0, 4) == 0 && aligned(32, 1) == 32 && aligned(4256, 32) == 4256);
            reveal_with_fuel(fields_end, 3);
            reveal_with_fuel(fields_align, 3);
        }
        struct_layout(&fields, DMA_ALIGN)
    }
}

impl SymInputNode {
    /// Layout of one input descriptor: four words and an IV of four words.
    pub fn layout() -> (layout: Layout)
        ensures
            layout == (Layout { size: 32, align: 4 }),
    {
        words(8)
    }
}

impl SymOutputNode {
    /// Layout of one output descriptor: four words.
    pub fn layout() -> (layout: Layout)
        ensures
            layout == (Layout { size: 16, align: 4 }),
    {
        words(4)
    }
}

impl CipherDmaStorage {
    /// Layout of the cipher memory: two input descriptors, two output descriptors, the
    /// input block and the output block.
    pub fn layout() -> (layout: Layout)
        ensures
            layout == (Layout { size: 128, align: 32 }),
    {
        let block = array_layout(byte_layout(), AES_BLOCK_BYTES);
        let fields = [
            array_layout(SymInputNode::layout(), 2),
            array_layout(SymOutputNode::layout(), 2),
            block,
            block,
        ];
        proof {
            assert(fields@[0] == Layout { size: 64, align: 4 });
            assert(fields@[1] == Layout { size: 32, align: 4 });
            assert(fields@[2] == Layout { size: 16, align: 1 });
            assert(fields@[3] == Layout { size: 16, align: 1 });
            assert(aligned(0, 4) == 0 && aligned(64, 4) == 64 && aligned(96, 1) == 96);
            assert(aligned(112, 1) == 112 && aligned(128, 32) == 128);
            reveal_with_fuel(fields_end, 5);
            reveal_with_fuel(fields_align, 5);
        }
        struct_layout(&fields, DMA_ALIGN)
    }
}

impl PkeEccCurve {
    /// Layout of the curve for the ROM: six pointers and three words.
    pub fn layout() -> (layout: Layout)
        ensures
            layout == (Layout { size: 36, align: 4 }),
    {
        words(9)
    }
}

impl PkeEccInitParam {
    /// Layout of the precomputed values for the ROM: ten pointers.
    pub fn layout() -> (layout: Layout)
        ensures
            layout == (Layout { size: 40, align: 4 }),
    {
        words(10)
    }
}

impl RomLib {
    /// Layout of a batch descriptor: two words.
    pub fn layout() -> (layout: Layout)
        ensures
            layout == (Layout { size: 8, align: 4 }),
    {
        words(2)
    }
}

} // verus!
