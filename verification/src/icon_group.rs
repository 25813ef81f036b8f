//! The group-icon resource: a 6-byte header followed by fixed 14-byte icon
//! variant descriptors, one per icon image stored in the file.

use vstd::prelude::*;

use crate::bytes::{read_le16, read_le32, spec_le16, spec_le32};

verus! {

/// A well-formed group-icon buffer: a 6-byte header whose entry count field
/// (at offset 4) matches the number of 14-byte entries that follow exactly.
pub open spec fn group_dir_wf(b: Seq<u8>) -> bool {
    b.len() >= 6 && b.len() == 6 + 14 * spec_le16(b, 4)
}

/// One icon variant descriptor: 14 raw bytes out of a group-icon buffer.
#[derive(Copy, Clone)]
pub struct IconDirectoryEntry<'a> {
    bytes: &'a [u8],
}

impl<'a> View for IconDirectoryEntry<'a> {
    type V = Seq<u8>;

    closed spec fn view(&self) -> Seq<u8> {
        self.bytes@
    }
}

impl<'a> IconDirectoryEntry<'a> {
    /// A descriptor holds exactly 14 bytes.
    pub open spec fn wf(self) -> bool {
        self@.len() == 14
    }

    pub fn from_bytes(bytes: &'a [u8]) -> (r: IconDirectoryEntry<'a>)
        requires
            bytes@.len() == 14,
        ensures
            r@ == bytes@,
            r.wf(),
    {
        IconDirectoryEntry { bytes }
    }

    pub fn width(&self) -> (r: u8)
        requires
            self.wf(),
        ensures
            r == self@[0],
    {
        self.bytes[0]
    }

    pub fn height(&self) -> (r: u8)
        requires
            self.wf(),
        ensures
            r == self@[1],
    {
        self.bytes[1]
    }

    pub fn color_count(&self) -> (r: u8)
        requires
            self.wf(),
        ensures
            r == self@[2],
    {
        self.bytes[2]
    }

    pub fn num_planes(&self) -> (r: u16)
        requires
            self.wf(),
        ensures
            r == spec_le16(self@, 4),
    {
        read_le16(self.bytes, 4)
    }

    pub fn bit_count(&self) -> (r: u16)
        requires
            self.wf(),
        ensures
            r == spec_le16(self@, 6),
    {
        read_le16(self.bytes, 6)
    }

    pub fn num_bytes(&self) -> (r: u32)
        requires
            self.wf(),
        ensures
            r == spec_le32(self@, 8),
    {
        read_le32(self.bytes, 8)
    }

    pub fn icon_id(&self) -> (r: u16)
        requires
            self.wf(),
        ensures
            r == spec_le16(self@, 12),
    {
        read_le16(self.bytes, 12)
    }
}

/// An ordered directory of icon variant descriptors, wrapping a validated
/// group-icon buffer.
#[derive(Copy, Clone)]
pub struct IconGroupDirectory<'a> {
    bytes: &'a [u8],
}

impl<'a> View for IconGroupDirectory<'a> {
    type V = Seq<u8>;

    closed spec fn view(&self) -> Seq<u8> {
        self.bytes@
    }
}

/// The 14 bytes of entry `idx` of a well-formed group-icon buffer.
pub open spec fn spec_entry_bytes(b: Seq<u8>, idx: int) -> Seq<u8> {
    b.subrange(6 + 14 * idx, 20 + 14 * idx)
}

/// Element `j` of `s` is the well-formed descriptor cut out of the
/// group-icon buffer `b` at position `j`.
pub open spec fn entry_matches<'a>(s: Seq<IconDirectoryEntry<'a>>, b: Seq<u8>, j: int) -> bool {
    s[j].wf() && s[j]@ == spec_entry_bytes(b, j)
}

impl<'a> IconGroupDirectory<'a> {
    pub open spec fn wf(self) -> bool {
        group_dir_wf(self@)
    }

    /// The declared number of entries of the directory.
    pub open spec fn spec_num_entries(self) -> int {
        spec_le16(self@, 4)
    }

    /// Validates a buffer against the group-icon invariant: its total length
    /// must be exactly 6 plus 14 times its declared entry count.
    pub fn from_bytes(bytes: &'a [u8]) -> (r: Option<IconGroupDirectory<'a>>)
        ensures
            r is Some <==> group_dir_wf(bytes@),
            r is Some ==> r.unwrap()@ == bytes@ && r.unwrap().wf(),
    {
        if bytes.len() >= 6 {
            let this = IconGroupDirectory { bytes };
            let n = read_le16(bytes, 4);
            if 6 + 14 * (n as usize) == bytes.len() {
                Some(this)
            } else {
                None
            }
        } else {
            None
        }
    }

    pub fn num_entries(&self) -> (r: u16)
        requires
            self.wf(),
        ensures
            r == self.spec_num_entries(),
    {
        read_le16(self.bytes, 4)
    }

    pub fn entry_at(&self, idx: u16) -> (r: IconDirectoryEntry<'a>)
        requires
            self.wf(),
            idx < self.spec_num_entries(),
        ensures
            r.wf(),
            r@ == spec_entry_bytes(self@, idx as int),
    {
        let entry_size: usize = 14;
        let start = 6 + entry_size * (idx as usize);
        let end = start + entry_size;
        let bytes = &self.bytes[start..end];
        IconDirectoryEntry::from_bytes(bytes)
    }

    /// All entries of the directory, in stored order.
    pub fn entries(&self) -> (r: Vec<IconDirectoryEntry<'a>>)
        requires
            self.wf(),
        ensures
            r@.len() == self.spec_num_entries(),
            forall|i: int| 0 <= i < r@.len() ==> #[trigger] entry_matches(r@, self@, i),
    {
        let n = self.num_entries();
        let mut out: Vec<IconDirectoryEntry<'a>> = Vec::new();
        let mut i: u16 = 0;
        while i < n
            invariant
                i <= n,
                self.wf(),
                n == self.spec_num_entries(),
                out@.len() == i as int,
                forall|j: int| 0 <= j < i as int ==> #[trigger] entry_matches(out@, self@, j),
            decreases n - i,
        {
            let e = self.entry_at(i);
            let ghost prev = out@;
            out.push(e);
            proof {
                assert forall|j: int| 0 <= j < i as int + 1 implies #[trigger] entry_matches(
                    out@,
                    self@,
                    j,
                ) by {
                    if j < i as int {
                        assert(entry_matches(prev, self@, j));
                        assert(out@[j] == prev[j]);
                    } else {
                        assert(out@[j] == e);
                    }
                }
            }
            i = i + 1;
        }
        out
    }
}

/// A group-icon buffer of length 6 + 14·N carrying entry count N satisfies
/// the directory invariant, and a buffer of any other length does not: the
/// invariant pins the length to the entry count exactly.
pub proof fn lemma_group_directory_length(b: Seq<u8>, n: int)
    requires
        b.len() >= 6,
        spec_le16(b, 4) == n,
    ensures
        b.len() == 6 + 14 * n ==> group_dir_wf(b),
        b.len() != 6 + 14 * n ==> !group_dir_wf(b),
{
}

} // verus!
