//! The cache lines that a memory range touches.
use vstd::prelude::*;

verus! {

/// Bytes of a cache line.
pub const CACHE_LINE: usize = 32;

/// The address of the line that a byte lies in.
pub open spec fn line_of(address: int) -> int {
    address / 32 * 32
}

/// The lines of a range, in order; none where the range is empty or reaches too close to
/// the end of the address space.
pub open spec fn cache_lines(address: usize, length: usize) -> Seq<usize> {
    if length == 0 || address + length + 31 > usize::MAX {
        seq![]
    } else {
        let start = line_of(address as int);
        let end = line_of(address + length + 31);
        Seq::new(((end - start) / 32) as nat, |i: int| (start + 32 * i) as usize)
    }
}

/// Every byte of a range lies in one of its lines, and every line holds a byte of the
/// range.
pub proof fn law_cache_lines_cover(address: usize, length: usize)
    requires
        address + length + 31 <= usize::MAX,
    ensures
        forall|byte: int|
            address <= byte < address + length ==> exists|i: int|
                0 <= i < cache_lines(address, length).len() && #[trigger] cache_lines(
                    address,
                    length,
                )[i] == #[trigger] line_of(byte),
        forall|i: int|
            0 <= i < cache_lines(address, length).len() ==> exists|byte: int|
                address <= byte < address + length && #[trigger] line_of(byte)
                    == #[trigger] cache_lines(address, length)[i],
{
    let lines = cache_lines(address, length);
    let start = line_of(address as int);
    assert forall|byte: int| address <= byte < address + length implies exists|i: int|
        0 <= i < lines.len() && #[trigger] lines[i] == #[trigger] line_of(byte) by {
        let i = (line_of(byte) - start) / 32;
        assert(lines[i] == line_of(byte));
    }
    assert forall|i: int| 0 <= i < lines.len() implies exists|byte: int|
        address <= byte < address + length && #[trigger] line_of(byte) == #[trigger] lines[i] by {
        let line = lines[i] as int;
        let byte = if line < address {
            address as int
        } else {
            line
        };
        assert(line_of(byte) == line);
    }
}

/// The lines to clean so that a range is written back to memory.
pub fn clean_dcache_range(address: usize, length: usize) -> (lines: Vec<usize>)
    ensures
        lines@ == cache_lines(address, length),
{
    let mut lines: Vec<usize> = Vec::new();
    if length == 0 {
        proof {
            assert(lines@ =~= cache_lines(address, length));
        }
        return lines;
    }
    let unaligned = match address.checked_add(length) {
        Some(end) => end.checked_add(CACHE_LINE - 1),
        None => None,
    };
    let end = match unaligned {
        Some(end) => end - end % CACHE_LINE,
        None => {
            proof {
                assert(lines@ =~= cache_lines(address, length));
            }
            return lines;
        },
    };
    let ghost all = cache_lines(address, length);
    let start = address - address % CACHE_LINE;
    let mut line: usize = start;
    while line < end
        invariant
            address + length + 31 <= usize::MAX,
            length > 0,
            all == cache_lines(address, length),
            start == line_of(address as int),
            end == line_of(address + length + 31),
            start <= line <= end,
            line % 32 == 0,
            lines@ == all.take((line - start) / 32),
        decreases end - line,
    {
        let ghost k = (line - start) / 32;
        lines.push(line);
        proof {
            assert(all[k] == line);
            assert(lines@ =~= all.take(k + 1));
        }
        line += CACHE_LINE;
    }
    proof {
        assert(all.take(all.len() as int) =~= all);
    }
    lines
}

} // verus!
