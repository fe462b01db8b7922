//! Words and the bytes that carry them.
use vstd::prelude::*;

verus! {

/// The little-endian word whose lowest byte stands at `at`.
pub open spec fn le_word(bytes: Seq<u8>, at: int) -> u32 {
    (bytes[at] + 0x100 * bytes[at + 1] + 0x1_0000 * bytes[at + 2] + 0x100_0000 * bytes[at
        + 3]) as u32
}

/// Byte `k` of a word, counted from the low end.
pub open spec fn le_byte(word: u32, k: int) -> u8 {
    (if k == 0 {
        word % 0x100
    } else if k == 1 {
        word / 0x100 % 0x100
    } else if k == 2 {
        word / 0x1_0000 % 0x100
    } else {
        word / 0x100_0000
    }) as u8
}

/// The four bytes of a word, low end first.
pub open spec fn le_bytes(word: u32) -> Seq<u8> {
    Seq::new(4, |k: int| le_byte(word, k))
}

/// The eight bytes of a number below two to the 64, high end first.
pub open spec fn be_bytes_64(value: u64) -> Seq<u8> {
    seq![
        (value / 0x100_0000_0000_0000) as u8,
        (value / 0x1_0000_0000_0000 % 0x100) as u8,
        (value / 0x100_0000_0000 % 0x100) as u8,
        (value / 0x1_0000_0000 % 0x100) as u8,
        (value / 0x100_0000 % 0x100) as u8,
        (value / 0x1_0000 % 0x100) as u8,
        (value / 0x100 % 0x100) as u8,
        (value % 0x100) as u8,
    ]
}

/// The four bytes of a word, high end first.
pub open spec fn be_bytes_32(word: u32) -> Seq<u8> {
    seq![le_byte(word, 3), le_byte(word, 2), le_byte(word, 1), le_byte(word, 0)]
}

/// Reading back the four bytes of a word gives the word.
pub proof fn law_word_round_trip(word: u32)
    ensures
        le_word(le_bytes(word), 0) == word,
{
    let b = le_bytes(word);
    assert(b[0] == word % 0x100);
    assert(b[1] == word / 0x100 % 0x100);
    assert(b[2] == word / 0x1_0000 % 0x100);
    assert(b[3] == word / 0x100_0000);
}

/// Words are carried low end first, or high end first where the name says so: the bytes of a
/// word, each worth 256 times the one below it, add up to the word, and every word that is
/// put together of bytes is such a sum.
pub proof fn law_byte_order(word: u32, bytes: Seq<u8>, at: int)
    ensures
        le_bytes(word).len() == 4,
        word == le_bytes(word)[0] + 256 * le_bytes(word)[1] + 65536 * le_bytes(word)[2] + 16777216
            * le_bytes(word)[3],
        be_bytes_32(word).len() == 4,
        word == be_bytes_32(word)[3] + 256 * be_bytes_32(word)[2] + 65536 * be_bytes_32(word)[1]
            + 16777216 * be_bytes_32(word)[0],
        le_word(bytes, at) == bytes[at] + 256 * bytes[at + 1] + 65536 * bytes[at + 2] + 16777216
            * bytes[at + 3],
{
    let b = le_bytes(word);
    assert(b[0] == word % 0x100);
    assert(b[1] == word / 0x100 % 0x100);
    assert(b[2] == word / 0x1_0000 % 0x100);
    assert(b[3] == word / 0x100_0000);
}

/// Reads the little-endian word at byte `at`.
pub(crate) fn read_word(bytes: &[u8], at: usize) -> (word: u32)
    requires
        at + 4 <= bytes@.len(),
    ensures
        word == le_word(bytes@, at as int),
{
    bytes[at] as u32 + 0x100 * (bytes[at + 1] as u32) + 0x1_0000 * (bytes[at + 2] as u32)
        + 0x100_0000 * (bytes[at + 3] as u32)
}

/// Splits a word into its bytes, low end first.
pub(crate) fn split_word(word: u32) -> (bytes: [u8; 4])
    ensures
        bytes@ == le_bytes(word),
{
    let bytes = [
        (word % 0x100) as u8,
        (word / 0x100 % 0x100) as u8,
        (word / 0x1_0000 % 0x100) as u8,
        (word / 0x100_0000) as u8,
    ];
    assert(bytes@ =~= le_bytes(word));
    bytes
}

/// Splits a 64-bit number into its bytes, high end first.
pub(crate) fn split_be_64(value: u64) -> (bytes: [u8; 8])
    ensures
        bytes@ == be_bytes_64(value),
{
    let bytes = [
        (value / 0x100_0000_0000_0000) as u8,
        (value / 0x1_0000_0000_0000 % 0x100) as u8,
        (value / 0x100_0000_0000 % 0x100) as u8,
        (value / 0x1_0000_0000 % 0x100) as u8,
        (value / 0x100_0000 % 0x100) as u8,
        (value / 0x1_0000 % 0x100) as u8,
        (value / 0x100 % 0x100) as u8,
        (value % 0x100) as u8,
    ];
    assert(bytes@ =~= be_bytes_64(value));
    bytes
}

/// Copies `source` into `target` from index `at` on and leaves the rest as it was.
pub(crate) fn copy_at(target: &mut [u8], at: usize, source: &[u8])
    requires
        at + source@.len() <= old(target)@.len(),
    ensures
        final(target)@ == old(target)@.take(at as int) + source@ + old(target)@.skip(
            at + source@.len(),
        ),
{
    let ghost before = target@;
    let len = target.len();
    let mut i: usize = 0;
    while i < source.len()
        invariant
            len == before.len(),
            i <= source@.len(),
            at + source@.len() <= before.len(),
            target@.len() == before.len(),
            before == old(target)@,
            forall|j: int| 0 <= j < at ==> target@[j] == before[j],
            forall|j: int| at <= j < at + i ==> target@[j] == source@[j - at],
            forall|j: int| at + i <= j < before.len() ==> target@[j] == before[j],
        decreases source@.len() - i,
    {
        target[at + i] = source[i];
        i += 1;
    }
    proof {
        assert(target@ =~= before.take(at as int) + source@ + before.skip(at + source@.len()));
    }
}

} // verus!
