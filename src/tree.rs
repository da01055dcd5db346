//! The blob descriptor: header parsing and string table lookups.
use vstd::prelude::*;
use vstd::slice::slice_subrange;
use crate::bytes::{be_at, be_value, bounded_len, is_terminated_len, read_big_endian, strnlen, MAX_STR_LEN};

verus! {

/// Signature found in the first word of every device tree blob.
pub const DEVICE_TREE_MAGIC: u32 = 0xd00d_feed;

/// Number of header bytes that the parser reads.
pub const HEADER_SIZE: usize = 40;

/// What can go wrong while decoding a blob.
#[derive(Debug, Clone, Copy, PartialEq, Eq, Structural)]
pub enum FdtError {
    /// The first word is not the signature; it holds the word found.
    MagicMismatch(u32),
    /// A read would go past the end of the blob.
    Truncated,
    /// A node name has no terminator within the bound.
    InvalidNodeName,
    /// A node end came with no node open.
    InvalidNesting,
    /// A tag that the format does not define; it holds the tag.
    UnknownTag(u32),
    /// The structure block ended before its end tag.
    MissingEndTag,
    /// A property name in the strings block has no terminator within the bound.
    MalformedStringTableEntry,
}

/// A non-owning descriptor of a blob: the blob itself and the fields of its header.
#[derive(Debug, Clone, Copy)]
pub struct DeviceTree<'a> {
    pub base: &'a [u8],
    pub total_size: u32,
    pub structure_offset: u32,
    pub strings_offset: u32,
    pub mem_offset: u32,
    pub version: u32,
    pub last_comp_version: u32,
    pub boot_cpuid_phys: u32,
    pub strings_size: u32,
    pub structure_size: u32,
}

/// The big-endian word at byte `at` of `blob`.
pub open spec fn word_at(blob: Seq<u8>, at: int) -> nat {
    be_at(blob, at, 4)
}

impl<'a> DeviceTree<'a> {
    /// The descriptor that marks a blob as unusable: no bytes, every field zero.
    pub open spec fn is_zeroed(&self) -> bool {
        &&& self.base@.len() == 0
        &&& self.total_size == 0
        &&& self.structure_offset == 0
        &&& self.strings_offset == 0
        &&& self.mem_offset == 0
        &&& self.version == 0
        &&& self.last_comp_version == 0
        &&& self.boot_cpuid_phys == 0
        &&& self.strings_size == 0
        &&& self.structure_size == 0
    }

    /// The descriptor views `blob` and holds the header words of `blob`.
    pub open spec fn describes(&self, blob: Seq<u8>) -> bool {
        &&& self.base@ == blob
        &&& self.total_size == word_at(blob, 4)
        &&& self.structure_offset == word_at(blob, 8)
        &&& self.strings_offset == word_at(blob, 12)
        &&& self.mem_offset == word_at(blob, 16)
        &&& self.version == word_at(blob, 20)
        &&& self.last_comp_version == word_at(blob, 24)
        &&& self.boot_cpuid_phys == word_at(blob, 28)
        &&& self.strings_size == word_at(blob, 32)
        &&& self.structure_size == word_at(blob, 36)
    }

    /// Where the name at `offset` of the strings block starts in the blob.
    pub open spec fn string_start(&self, offset: int) -> int {
        self.strings_offset + offset
    }

    /// Length of the name at `offset` of the strings block, if it is terminated
    /// within the bound and within the blob.
    pub open spec fn string_len(&self, offset: int) -> Option<int> {
        bounded_len(self.base@, self.string_start(offset), MAX_STR_LEN as int)
    }

    /// The structure and strings blocks lie within the declared total size, and
    /// the declared total size within the blob.
    pub open spec fn spec_blocks_in_bounds(&self) -> bool {
        &&& self.total_size <= self.base@.len()
        &&& self.structure_offset + self.structure_size <= self.total_size
        &&& self.strings_offset + self.strings_size <= self.total_size
    }

    /// Whether the structure and strings blocks lie within the declared total
    /// size, and the declared total size within the blob.
    pub fn blocks_in_bounds(&self) -> (r: bool)
        ensures
            r == self.spec_blocks_in_bounds(),
    {
        let total = self.total_size as u64;
        total <= self.base.len() as u64
            && self.structure_offset as u64 + self.structure_size as u64 <= total
            && self.strings_offset as u64 + self.strings_size as u64 <= total
    }

    /// A zeroed descriptor.
    pub fn new() -> (r: Self)
        ensures
            r.is_zeroed(),
    {
        let empty: &'a [u8] = &[];
        DeviceTree {
            base: empty,
            total_size: 0,
            structure_offset: 0,
            strings_offset: 0,
            mem_offset: 0,
            version: 0,
            last_comp_version: 0,
            boot_cpuid_phys: 0,
            strings_size: 0,
            structure_size: 0,
        }
    }

    /// Length of the name at `offset` of the strings block.
    pub(crate) fn string_len_at(&self, offset: u32) -> (r: Option<usize>)
        ensures
            match self.string_len(offset as int) {
                Some(n) => r == Some(n as usize),
                None => r.is_none(),
            },
            r matches Some(n) ==> is_terminated_len(
                self.base@,
                self.string_start(offset as int),
                MAX_STR_LEN as int,
                n as int,
            ),
    {
        let start: u64 = self.strings_offset as u64 + offset as u64;
        if start >= self.base.len() as u64 {
            proof {
                assert(!exists|n: int|
                    is_terminated_len(self.base@, start as int, MAX_STR_LEN as int, n));
            }
            return None;
        }
        strnlen(self.base, start as usize, MAX_STR_LEN)
    }

    /// The name at `offset` of the strings block, without its terminator.
    pub fn get_string_from_offset(&self, offset: u32) -> (r: Result<&'a [u8], FdtError>)
        ensures
            match self.string_len(offset as int) {
                Some(n) => r matches Ok(name) && name@ == self.base@.subrange(
                    self.string_start(offset as int),
                    self.string_start(offset as int) + n,
                ),
                None => r == Err::<&[u8], FdtError>(FdtError::MalformedStringTableEntry),
            },
    {
        proof {
            assert(self.base@.len() == self.base.len());
        }
        match self.string_len_at(offset) {
            Some(n) => {
                let start = self.strings_offset as usize + offset as usize;
                Ok(slice_subrange(self.base, start, start + n))
            },
            None => Err(FdtError::MalformedStringTableEntry),
        }
    }
}

/// What header parsing makes of `blob`: no error and the descriptor of `blob`,
/// or an error and the zeroed descriptor.
pub open spec fn header_outcome(blob: Seq<u8>, t: DeviceTree, e: Option<FdtError>) -> bool {
    if blob.len() < 4 {
        e == Some(FdtError::Truncated) && t.is_zeroed()
    } else if word_at(blob, 0) != DEVICE_TREE_MAGIC {
        e == Some(FdtError::MagicMismatch(word_at(blob, 0) as u32)) && t.is_zeroed()
    } else if blob.len() < HEADER_SIZE {
        e == Some(FdtError::Truncated) && t.is_zeroed()
    } else {
        e.is_none() && t.describes(blob)
    }
}

/// Reads the header of the blob `blob`. A blob without the signature, or too
/// short for its header, gives the zeroed descriptor and the reason.
pub fn device_tree_from_ram_ptr<'a>(blob: &'a [u8]) -> (r: (DeviceTree<'a>, Option<FdtError>))
    ensures
        header_outcome(blob@, r.0, r.1),
{
    let dt = DeviceTree::new();
    let len = blob.len();
    if len < 4 {
        return (dt, Some(FdtError::Truncated));
    }
    let magic = read_big_endian(blob, 0);
    if magic != DEVICE_TREE_MAGIC {
        return (dt, Some(FdtError::MagicMismatch(magic)));
    }
    if len < HEADER_SIZE {
        return (dt, Some(FdtError::Truncated));
    }
    let parsed = DeviceTree {
        base: blob,
        total_size: read_big_endian(blob, 4),
        structure_offset: read_big_endian(blob, 8),
        strings_offset: read_big_endian(blob, 12),
        mem_offset: read_big_endian(blob, 16),
        version: read_big_endian(blob, 20),
        last_comp_version: read_big_endian(blob, 24),
        boot_cpuid_phys: read_big_endian(blob, 28),
        strings_size: read_big_endian(blob, 32),
        structure_size: read_big_endian(blob, 36),
    };
    (parsed, None)
}

/// The four bytes of `v`, most significant first.
pub open spec fn be_bytes(v: u32) -> Seq<u8> {
    seq![(v >> 24u32) as u8, (v >> 16u32) as u8, (v >> 8u32) as u8, v as u8]
}

/// The header bytes of a blob whose header holds the fields of `t`.
pub open spec fn header_bytes(t: DeviceTree) -> Seq<u8> {
    be_bytes(DEVICE_TREE_MAGIC) + be_bytes(t.total_size) + be_bytes(t.structure_offset) + be_bytes(
        t.strings_offset,
    ) + be_bytes(t.mem_offset) + be_bytes(t.version) + be_bytes(t.last_comp_version) + be_bytes(
        t.boot_cpuid_phys,
    ) + be_bytes(t.strings_size) + be_bytes(t.structure_size)
}

proof fn lemma_be_bytes_value(v: u32)
    ensures
        be_value(be_bytes(v)) == v,
{
    let s = be_bytes(v);
    assert(s.drop_last().drop_last().drop_last().drop_last() =~= Seq::<u8>::empty());
    reveal_with_fuel(be_value, 5);
    let (a, b, c, d) = ((v >> 24u32) as u8, (v >> 16u32) as u8, (v >> 8u32) as u8, v as u8);
    assert(((a as u32 * 256 + b as u32) * 256 + c as u32) * 256 + d as u32 == v) by (bit_vector)
        requires
            a == (v >> 24u32) as u8,
            b == (v >> 16u32) as u8,
            c == (v >> 8u32) as u8,
            d == v as u8,
    ;
}

/// A blob whose first bytes are the header of the fields of `t` parses back to
/// exactly those fields, with no error.
pub proof fn lemma_header_round_trip(t: DeviceTree)
    requires
        t.base@.len() >= HEADER_SIZE,
        t.base@.subrange(0, HEADER_SIZE as int) == header_bytes(t),
    ensures
        header_outcome(t.base@, t, None),
{
    let blob = t.base@;
    let h = header_bytes(t);
    let fields = seq![
        DEVICE_TREE_MAGIC,
        t.total_size,
        t.structure_offset,
        t.strings_offset,
        t.mem_offset,
        t.version,
        t.last_comp_version,
        t.boot_cpuid_phys,
        t.strings_size,
        t.structure_size,
    ];
    assert forall|k: int| 0 <= k < 10 implies word_at(blob, 4 * k) == fields[k] by {
        assert(blob.subrange(4 * k, 4 * k + 4) =~= h.subrange(4 * k, 4 * k + 4));
        assert(h.subrange(4 * k, 4 * k + 4) =~= be_bytes(fields[k]));
        lemma_be_bytes_value(fields[k]);
    }
    assert(word_at(blob, 0) == fields[0]);
    assert(word_at(blob, 4) == fields[1]);
    assert(word_at(blob, 8) == fields[2]);
    assert(word_at(blob, 12) == fields[3]);
    assert(word_at(blob, 16) == fields[4]);
    assert(word_at(blob, 20) == fields[5]);
    assert(word_at(blob, 24) == fields[6]);
    assert(word_at(blob, 28) == fields[7]);
    assert(word_at(blob, 32) == fields[8]);
    assert(word_at(blob, 36) == fields[9]);
}

} // verus!
