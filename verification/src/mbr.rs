//! The Master Boot Record partition table and its allocator.
//!
//! A [`MasterBootRecord`] holds up to four partition entries.  Space is
//! handed out by [`MasterBootRecord::add`], a one-shot bump allocator over a
//! 32-bit sector address space: each new partition starts exactly where the
//! previous ones end, so placements can never overlap.

use vstd::bytes::*;
use vstd::prelude::*;
use vstd::slice::slice_subrange;

verus! {

/// Bytes per sector: the fixed addressing unit of the format.
pub const SECTOR_SIZE: u64 = 512;

/// One occupied slot of the partition table.
///
/// The legacy CHS geometry fields of the on-disk format carry no meaning in
/// this design; they exist only in the serialized form, always zero.
#[derive(Clone, Copy, Debug, PartialEq, Eq, Structural)]
pub struct PartitionEntry {
    /// Bootable flag, stored on disk as `0x80` (active) or `0x00`.
    pub active: bool,
    /// Partition type identifier; zero is reserved for "unused slot" and
    /// never appears in an occupied entry.
    pub type_code: u8,
    /// First sector of the partition, counted from the start of the image.
    pub first_lba: u32,
    /// Length of the partition in sectors.
    pub sector_count: u32,
}

/// The sector where the next partition would start: one past the end of the
/// last entry, or sector 1 on an empty table (sector 0 holds the table).
pub open spec fn spec_next_free(s: Seq<PartitionEntry>) -> int {
    if s.len() == 0 {
        1
    } else {
        s.last().first_lba + s.last().sector_count
    }
}

/// Sectors needed for `size_bytes` bytes: `ceil(size_bytes / 512)`.
pub open spec fn spec_sectors(size_bytes: u64) -> int {
    (size_bytes + 511) / 512
}

/// Well-formedness of the occupied entries, in table order: at most four,
/// every type code nonzero, every entry at least one sector long, and each
/// entry starting exactly where the entries before it end.
pub open spec fn wf_entries(s: Seq<PartitionEntry>) -> bool {
    &&& s.len() <= 4
    &&& forall|i: int| 0 <= i < s.len() ==> (#[trigger] s[i]).type_code != 0
    &&& forall|i: int| 0 <= i < s.len() ==> (#[trigger] s[i]).sector_count >= 1
    &&& forall|i: int| 0 <= i < s.len() ==> (#[trigger] s[i]).first_lba == spec_next_free(
        s.take(i),
    )
}

/// The status byte of an entry: `0x80` for a bootable partition, `0x00`
/// otherwise.
pub open spec fn spec_status(e: PartitionEntry) -> u8 {
    if e.active {
        0x80
    } else {
        0x00
    }
}

/// The 16 bytes of one occupied entry on disk: status, three CHS bytes
/// (zero), type code, three CHS bytes (zero), then `first_lba` and
/// `sector_count` little-endian.
pub open spec fn spec_entry_bytes(e: PartitionEntry) -> Seq<u8> {
    seq![spec_status(e), 0u8, 0u8, 0u8, e.type_code, 0u8, 0u8, 0u8]
        + spec_u32_to_le_bytes(e.first_lba) + spec_u32_to_le_bytes(e.sector_count)
}

/// The 16 bytes of slot `i`: the entry's bytes where the slot is occupied,
/// all zero where it is empty.
pub open spec fn spec_slot_bytes(s: Seq<PartitionEntry>, i: int) -> Seq<u8> {
    if 0 <= i < s.len() {
        spec_entry_bytes(s[i])
    } else {
        Seq::new(16, |j: int| 0u8)
    }
}

/// The full 512-byte image of the table: 446 zero bytes of boot code, the
/// four 16-byte slots, and the signature `0x55 0xAA`.
pub open spec fn spec_serialize(s: Seq<PartitionEntry>) -> Seq<u8> {
    Seq::new(446, |j: int| 0u8) + spec_slot_bytes(s, 0) + spec_slot_bytes(s, 1) + spec_slot_bytes(
        s,
        2,
    ) + spec_slot_bytes(s, 3) + seq![0x55u8, 0xAAu8]
}

/// The entry recorded in slot `i` of a serialized table, read back from the
/// bytes: a status byte of `0x80` marks the partition bootable.
pub open spec fn spec_decode_entry(b: Seq<u8>, i: int) -> PartitionEntry {
    PartitionEntry {
        active: b[446 + 16 * i] == 0x80,
        type_code: b[446 + 16 * i + 4],
        first_lba: spec_u32_from_le_bytes(b.subrange(446 + 16 * i + 8, 446 + 16 * i + 12)),
        sector_count: spec_u32_from_le_bytes(b.subrange(446 + 16 * i + 12, 446 + 16 * i + 16)),
    }
}

/// The byte length of every slot, occupied or empty, is 16.
proof fn lemma_slot_bytes_len(s: Seq<PartitionEntry>, i: int)
    ensures
        spec_slot_bytes(s, i).len() == 16,
{
    lemma_auto_spec_u32_to_from_le_bytes();
}

/// An in-memory model of the 512-byte MBR: a fixed boot-code region (zero),
/// up to four partition entries, and the `0x55 0xAA` signature.
///
/// Only the occupied slots are stored; the empty tail slots and the fixed
/// regions exist in the serialized form alone.
#[derive(Clone, Debug)]
pub struct MasterBootRecord {
    entries: Vec<PartitionEntry>,
}

impl View for MasterBootRecord {
    type V = Seq<PartitionEntry>;

    closed spec fn view(&self) -> Seq<PartitionEntry> {
        self.entries@
    }
}

impl Default for MasterBootRecord {
    /// A table with all four slots empty.
    fn default() -> (r: Self)
        ensures
            r@ == Seq::<PartitionEntry>::empty(),
            r.wf(),
    {
        MasterBootRecord { entries: Vec::new() }
    }
}

impl MasterBootRecord {
    /// The table's invariant; established by `default` and kept by `add`.
    pub open spec fn wf(self) -> bool {
        wf_entries(self@)
    }

    /// How many of the four slots are occupied.
    pub fn len(&self) -> (n: usize)
        ensures
            n == self@.len(),
    {
        self.entries.len()
    }

    /// The `i`-th occupied entry, or `None` past the occupied prefix.
    pub fn entry(&self, i: usize) -> (r: Option<PartitionEntry>)
        ensures
            r == if i < self@.len() {
                Some(self@[i as int])
            } else {
                None::<PartitionEntry>
            },
    {
        if i < self.entries.len() {
            Some(self.entries[i])
        } else {
            None
        }
    }

    /// Appends the 16 bytes of slot `i` to `out`.
    fn push_slot(&self, out: &mut Vec<u8>, i: usize)
        requires
            i < 4,
        ensures
            final(out)@ == old(out)@ + spec_slot_bytes(self@, i as int),
    {
        if i < self.entries.len() {
            let e = self.entries[i];
            let status: u8 = if e.active {
                0x80
            } else {
                0x00
            };
            out.push(status);
            out.push(0);
            out.push(0);
            out.push(0);
            out.push(e.type_code);
            out.push(0);
            out.push(0);
            out.push(0);
            let mut lba = u32_to_le_bytes(e.first_lba);
            out.append(&mut lba);
            let mut cnt = u32_to_le_bytes(e.sector_count);
            out.append(&mut cnt);
            proof {
                assert(out@ =~= old(out)@ + spec_entry_bytes(e));
            }
        } else {
            let mut j: usize = 0;
            while j < 16
                invariant
                    j <= 16,
                    out@ =~= old(out)@ + Seq::new(j as nat, |k: int| 0u8),
                decreases 16 - j,
            {
                out.push(0);
                j = j + 1;
                proof {
                    assert(out@ =~= old(out)@ + Seq::new(j as nat, |k: int| 0u8));
                }
            }
            proof {
                assert(out@ =~= old(out)@ + spec_slot_bytes(self@, i as int));
            }
        }
    }

    /// Serializes the table into its exact 512-byte on-disk form: boot code,
    /// four slots, signature, all multi-byte integers little-endian.
    ///
    /// A pure view over the in-memory state: the same table always yields
    /// the same bytes, and the length is 512 however many slots are occupied.
    pub fn serialize(&self) -> (out: Vec<u8>)
        ensures
            out@ == spec_serialize(self@),
            out@.len() == 512,
    {
        let mut out: Vec<u8> = Vec::new();
        let mut i: usize = 0;
        while i < 446
            invariant
                i <= 446,
                out@.len() == i,
                forall|k: int| 0 <= k < i ==> out@[k] == 0u8,
            decreases 446 - i,
        {
            out.push(0);
            i = i + 1;
        }
        proof {
            assert(out@ =~= Seq::new(446, |j: int| 0u8));
        }
        self.push_slot(&mut out, 0);
        self.push_slot(&mut out, 1);
        self.push_slot(&mut out, 2);
        self.push_slot(&mut out, 3);
        out.push(0x55);
        out.push(0xAA);
        proof {
            assert(out@ =~= spec_serialize(self@));
            lemma_slot_bytes_len(self@, 0);
            lemma_slot_bytes_len(self@, 1);
            lemma_slot_bytes_len(self@, 2);
            lemma_slot_bytes_len(self@, 3);
        }
        out
    }

    /// Reserves space for a partition of `size_bytes` bytes and records it in
    /// the first empty slot.
    ///
    /// On success returns the byte offset of the partition's data within the
    /// image.  Returns `None` — leaving the table untouched — exactly when
    /// the table is full, when the sector count would not fit in 32 bits, or
    /// when the next free sector itself lies beyond the 32-bit sector space.
    pub fn add(&mut self, active: bool, type_code: u8, size_bytes: u64) -> (r: Option<u64>)
        requires
            old(self).wf(),
            type_code != 0,
            size_bytes > 0,
        ensures
            final(self).wf(),
            match r {
                Some(offset) => {
                    &&& old(self)@.len() < 4
                    &&& spec_sectors(size_bytes) <= u32::MAX
                    &&& spec_next_free(old(self)@) <= u32::MAX
                    &&& final(self)@ == old(self)@.push(
                        PartitionEntry {
                            active,
                            type_code,
                            first_lba: spec_next_free(old(self)@) as u32,
                            sector_count: spec_sectors(size_bytes) as u32,
                        },
                    )
                    &&& offset == 512 * spec_next_free(old(self)@)
                },
                None => {
                    &&& final(self)@ == old(self)@
                    &&& (old(self)@.len() >= 4 || spec_sectors(size_bytes) > u32::MAX
                        || spec_next_free(old(self)@) > u32::MAX)
                },
            },
    {
        let wide: u128 = (size_bytes as u128 + 511) / 512;
        if wide > u32::MAX as u128 {
            return None;
        }
        let sectors: u32 = wide as u32;

        if self.entries.len() >= 4 {
            return None;
        }

        let ghost s = self.entries@;
        let mut start: u64 = 1;
        let mut i: usize = 0;
        while i < self.entries.len()
            invariant
                self.entries@ == s,
                0 <= i <= s.len(),
                start == spec_next_free(s.take(i as int)),
            decreases s.len() - i,
        {
            let e = self.entries[i];
            start = e.first_lba as u64 + e.sector_count as u64;
            proof {
                assert(s.take(i + 1).last() == s[i as int]);
                assert(s.take(i + 1).len() == i + 1);
            }
            i = i + 1;
        }
        proof {
            assert(s.take(s.len() as int) == s);
        }

        if start > u32::MAX as u64 {
            return None;
        }

        let entry = PartitionEntry { active, type_code, first_lba: start as u32, sector_count: sectors };
        self.entries.push(entry);

        proof {
            let t = self.entries@;
            assert forall|j: int| 0 <= j < t.len() implies (#[trigger] t[j]).first_lba
                == spec_next_free(t.take(j)) by {
                assert(t.take(j) =~= s.take(j));
                if j < s.len() {
                    assert(t[j] == s[j]);
                } else {
                    assert(t.take(j) =~= s);
                }
            }
        }

        Some(SECTOR_SIZE * start)
    }
}

/// The next-free cursor never moves backwards along the table: scanning a
/// longer prefix of a well-formed table yields a later (or equal) cursor.
proof fn lemma_next_free_monotone(s: Seq<PartitionEntry>, i: int, j: int)
    requires
        wf_entries(s),
        0 <= i <= j <= s.len(),
    ensures
        spec_next_free(s.take(i)) <= spec_next_free(s.take(j)),
    decreases j - i,
{
    if i < j {
        lemma_next_free_monotone(s, i, j - 1);
        assert(s.take(j).last() == s[j - 1]);
        assert(s[j - 1].first_lba == spec_next_free(s.take(j - 1)));
    }
}

/// In a well-formed table, placements never overlap: every later entry
/// starts at or after the end of every earlier one, so the byte offsets
/// handed out by `add` are strictly increasing and the reserved ranges are
/// disjoint.
pub proof fn lemma_placements_disjoint(s: Seq<PartitionEntry>)
    requires
        wf_entries(s),
    ensures
        forall|i: int, j: int|
            0 <= i < j < s.len() ==> (#[trigger] s[j]).first_lba >= (#[trigger] s[i]).first_lba
                + s[i].sector_count,
        forall|i: int, j: int|
            0 <= i < j < s.len() ==> 512 * ((#[trigger] s[j]).first_lba as int) >= 512 * ((
            #[trigger] s[i]).first_lba as int) + 512 * (s[i].sector_count as int),
        forall|i: int, j: int|
            0 <= i < j < s.len() ==> 512 * ((#[trigger] s[j]).first_lba as int) > 512 * ((
            #[trigger] s[i]).first_lba as int),
{
    assert forall|i: int, j: int| 0 <= i < j < s.len() implies (#[trigger] s[j]).first_lba >= (
    #[trigger] s[i]).first_lba + s[i].sector_count by {
        lemma_next_free_monotone(s, i + 1, j);
        assert(s.take(i + 1).last() == s[i]);
        assert(s[i].first_lba == spec_next_free(s.take(i)));
        assert(s[j].first_lba == spec_next_free(s.take(j)));
    }
}

/// Serializing a table with no occupied slot yields 512 bytes that are all
/// zero but for the final signature bytes `0x55 0xAA`.
pub proof fn lemma_serialize_empty(s: Seq<PartitionEntry>)
    requires
        s.len() == 0,
    ensures
        spec_serialize(s).len() == 512,
        forall|k: int| 0 <= k < 510 ==> spec_serialize(s)[k] == 0u8,
        spec_serialize(s)[510] == 0x55u8,
        spec_serialize(s)[511] == 0xAAu8,
{
    lemma_slot_bytes_len(s, 0);
    lemma_slot_bytes_len(s, 1);
    lemma_slot_bytes_len(s, 2);
    lemma_slot_bytes_len(s, 3);
}

/// Round trip: reading any occupied slot back out of the serialized bytes
/// reproduces exactly the entry that was recorded — the bootable flag, the
/// type code, the first sector and the sector count.
pub proof fn lemma_serialize_round_trip(s: Seq<PartitionEntry>)
    requires
        s.len() <= 4,
    ensures
        forall|i: int|
            0 <= i < s.len() ==> spec_decode_entry(spec_serialize(s), i) == #[trigger] s[i],
{
    lemma_auto_spec_u32_to_from_le_bytes();
    lemma_slot_bytes_len(s, 0);
    lemma_slot_bytes_len(s, 1);
    lemma_slot_bytes_len(s, 2);
    lemma_slot_bytes_len(s, 3);
    let b = spec_serialize(s);
    assert forall|i: int| 0 <= i < s.len() implies spec_decode_entry(b, i) == #[trigger] s[i] by {
        let e = s[i];
        assert forall|k: int| 0 <= k < 16 implies b[446 + 16 * i + k] == spec_entry_bytes(e)[k] by {
            if i == 0 {
                assert(b[446 + k] == spec_slot_bytes(s, 0)[k]);
            } else if i == 1 {
                assert(b[462 + k] == spec_slot_bytes(s, 1)[k]);
            } else if i == 2 {
                assert(b[478 + k] == spec_slot_bytes(s, 2)[k]);
            } else {
                assert(b[494 + k] == spec_slot_bytes(s, 3)[k]);
            }
        }
        assert(b.subrange(446 + 16 * i + 8, 446 + 16 * i + 12) =~= spec_u32_to_le_bytes(
            e.first_lba,
        ));
        assert(b.subrange(446 + 16 * i + 12, 446 + 16 * i + 16) =~= spec_u32_to_le_bytes(
            e.sector_count,
        ));
        assert(b[446 + 16 * i] == spec_status(e));
        assert(b[446 + 16 * i + 4] == e.type_code);
    }
}

/// Reads back the fields of slot `i` from a serialized 512-byte table.
///
/// A status byte equal to `0x80` is read as "bootable"; an empty slot comes
/// back as an all-zero entry with `type_code == 0`.
pub fn decode_entry(buf: &[u8], i: usize) -> (r: PartitionEntry)
    requires
        buf@.len() == 512,
        i < 4,
    ensures
        r == spec_decode_entry(buf@, i as int),
{
    let base: usize = 446 + 16 * i;
    let status: u8 = buf[base];
    let type_code: u8 = buf[base + 4];
    let first_lba = u32_from_le_bytes(slice_subrange(buf, base + 8, base + 12));
    let sector_count = u32_from_le_bytes(slice_subrange(buf, base + 12, base + 16));
    PartitionEntry { active: status == 0x80, type_code, first_lba, sector_count }
}

} // verus!
