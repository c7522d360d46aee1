//! The persisted chunk format: palette length, palette block ids, a
//! width tag, the element count, the raw packed bytes (16- and 32-bit
//! widths little-endian per element), then the packed array's mask and
//! length.

use vstd::prelude::*;

use crate::block::{spec_block_id, spec_block_of_id, Block};
use crate::chunk::Chunk;
use crate::codec::{
    lemma_u16_le_round_trip, lemma_u32_le_round_trip, push_u16_le, push_u32_le, read_u16_le,
    read_u32_le, spec_u16_to_le, spec_u32_to_le,
};
use crate::packed::{PackedData, PackedUints};
use crate::palette::Palette;

verus! {

/// The width tag a packed buffer serializes under.
pub open spec fn spec_tag(d: PackedData) -> u8 {
    match d {
        PackedData::U4(_) => 0,
        PackedData::U8(_) => 1,
        PackedData::U16(_) => 2,
        PackedData::U32(_) => 3,
    }
}

/// The element count written in the header: the backing buffer's own
/// length, whatever the width.
pub open spec fn spec_count(d: PackedData) -> int {
    match d {
        PackedData::U4(b) => b@.len() as int,
        PackedData::U8(b) => b@.len() as int,
        PackedData::U16(b) => b@.len() as int,
        PackedData::U32(b) => b@.len() as int,
    }
}

/// The little-endian bytes of a 16-bit buffer, element by element.
pub open spec fn spec_u16_payload(b: Seq<u16>) -> Seq<u8>
    decreases b.len(),
{
    if b.len() == 0 {
        Seq::empty()
    } else {
        spec_u16_payload(b.drop_last()) + spec_u16_to_le(b.last())
    }
}

/// The little-endian bytes of a 32-bit buffer, element by element.
pub open spec fn spec_u32_payload(b: Seq<u32>) -> Seq<u8>
    decreases b.len(),
{
    if b.len() == 0 {
        Seq::empty()
    } else {
        spec_u32_payload(b.drop_last()) + spec_u32_to_le(b.last())
    }
}

/// The raw bytes of the packed buffer.
pub open spec fn spec_payload(d: PackedData) -> Seq<u8> {
    match d {
        PackedData::U4(b) => b@,
        PackedData::U8(b) => b@,
        PackedData::U16(b) => spec_u16_payload(b@),
        PackedData::U32(b) => spec_u32_payload(b@),
    }
}

/// The palette section: each block's identifier, four bytes each.
pub open spec fn spec_palette_bytes(s: Seq<Block>) -> Seq<u8>
    decreases s.len(),
{
    if s.len() == 0 {
        Seq::empty()
    } else {
        spec_palette_bytes(s.drop_last()) + spec_u32_to_le(spec_block_id(s.last()))
    }
}

/// The complete encoding of a chunk.
pub open spec fn spec_serialize_chunk(c: Chunk) -> Seq<u8> {
    spec_u32_to_le(c.palette@.len() as u32) + spec_palette_bytes(c.palette@) + seq![
        spec_tag(c.data.data),
    ] + spec_u32_to_le(spec_count(c.data.data) as u32) + spec_payload(c.data.data)
        + spec_u32_to_le(c.data.mask as u32) + spec_u32_to_le(c.data.length as u32)
}

/// A byte string some well-formed chunk serializes to.
pub open spec fn spec_valid_encoding(bytes: Seq<u8>) -> bool {
    exists|c: Chunk| c.wf() && bytes == spec_serialize_chunk(c)
}

/// The palette section is four bytes per block, and byte `4k + j` is
/// byte `j` of block `k`'s identifier.
pub proof fn lemma_palette_bytes_index(s: Seq<Block>, k: int, j: int)
    requires
        0 <= k < s.len(),
        0 <= j < 4,
    ensures
        spec_palette_bytes(s).len() == 4 * s.len(),
        spec_palette_bytes(s)[4 * k + j] == spec_u32_to_le(spec_block_id(s[k]))[j],
    decreases s.len(),
{
    lemma_palette_bytes_len(s);
    if k == s.len() - 1 {
        lemma_palette_bytes_len(s.drop_last());
    } else {
        lemma_palette_bytes_index(s.drop_last(), k, j);
        lemma_palette_bytes_len(s.drop_last());
    }
}

/// The palette section's length alone.
pub proof fn lemma_palette_bytes_len(s: Seq<Block>)
    ensures
        spec_palette_bytes(s).len() == 4 * s.len(),
    decreases s.len(),
{
    if s.len() > 0 {
        lemma_palette_bytes_len(s.drop_last());
    }
}

/// The 16-bit payload is two bytes per element, in element order.
pub proof fn lemma_u16_payload_index(b: Seq<u16>, k: int, j: int)
    requires
        0 <= k < b.len(),
        0 <= j < 2,
    ensures
        spec_u16_payload(b).len() == 2 * b.len(),
        spec_u16_payload(b)[2 * k + j] == spec_u16_to_le(b[k])[j],
    decreases b.len(),
{
    lemma_u16_payload_len(b);
    if k == b.len() - 1 {
        lemma_u16_payload_len(b.drop_last());
    } else {
        lemma_u16_payload_index(b.drop_last(), k, j);
        lemma_u16_payload_len(b.drop_last());
    }
}

pub proof fn lemma_u16_payload_len(b: Seq<u16>)
    ensures
        spec_u16_payload(b).len() == 2 * b.len(),
    decreases b.len(),
{
    if b.len() > 0 {
        lemma_u16_payload_len(b.drop_last());
    }
}

/// The 32-bit payload is four bytes per element, in element order.
pub proof fn lemma_u32_payload_index(b: Seq<u32>, k: int, j: int)
    requires
        0 <= k < b.len(),
        0 <= j < 4,
    ensures
        spec_u32_payload(b).len() == 4 * b.len(),
        spec_u32_payload(b)[4 * k + j] == spec_u32_to_le(b[k])[j],
    decreases b.len(),
{
    lemma_u32_payload_len(b);
    if k == b.len() - 1 {
        lemma_u32_payload_len(b.drop_last());
    } else {
        lemma_u32_payload_index(b.drop_last(), k, j);
        lemma_u32_payload_len(b.drop_last());
    }
}

pub proof fn lemma_u32_payload_len(b: Seq<u32>)
    ensures
        spec_u32_payload(b).len() == 4 * b.len(),
    decreases b.len(),
{
    if b.len() > 0 {
        lemma_u32_payload_len(b.drop_last());
    }
}

/// The payload's length per width.
pub proof fn lemma_payload_len(d: PackedData)
    ensures
        d is U4 ==> spec_payload(d).len() == spec_count(d),
        d is U8 ==> spec_payload(d).len() == spec_count(d),
        d is U16 ==> spec_payload(d).len() == 2 * spec_count(d),
        d is U32 ==> spec_payload(d).len() == 4 * spec_count(d),
{
    match d {
        PackedData::U16(b) => {
            lemma_u16_payload_len(b@);
        },
        PackedData::U32(b) => {
            lemma_u32_payload_len(b@);
        },
        _ => {},
    }
}

/// Where each section of the encoding starts and what it holds.
pub proof fn lemma_encoding_layout(c: Chunk)
    requires
        c.wf(),
    ensures
        ({
            let bytes = spec_serialize_chunk(c);
            let n = c.palette@.len() as int;
            let payload = spec_payload(c.data.data);
            &&& bytes.len() == 17 + 4 * n + payload.len()
            &&& bytes.subrange(0, 4) == spec_u32_to_le(n as u32)
            &&& bytes.subrange(4, 4 + 4 * n) == spec_palette_bytes(c.palette@)
            &&& bytes[4 + 4 * n] == spec_tag(c.data.data)
            &&& bytes.subrange(5 + 4 * n, 9 + 4 * n) == spec_u32_to_le(
                spec_count(c.data.data) as u32,
            )
            &&& bytes.subrange(9 + 4 * n, 9 + 4 * n + payload.len()) == payload
            &&& bytes.subrange(
                9 + 4 * n + payload.len(),
                13 + 4 * n + payload.len(),
            ) == spec_u32_to_le(c.data.mask as u32)
            &&& bytes.subrange(
                13 + 4 * n + payload.len(),
                17 + 4 * n + payload.len(),
            ) == spec_u32_to_le(c.data.length as u32)
        }),
{
    let bytes = spec_serialize_chunk(c);
    let n = c.palette@.len() as int;
    let payload = spec_payload(c.data.data);
    lemma_palette_bytes_len(c.palette@);
    assert(bytes.len() == 17 + 4 * n + payload.len());
    assert(bytes.subrange(0, 4) =~= spec_u32_to_le(n as u32));
    assert(bytes.subrange(4, 4 + 4 * n) =~= spec_palette_bytes(c.palette@));
    assert(bytes.subrange(5 + 4 * n, 9 + 4 * n) =~= spec_u32_to_le(spec_count(c.data.data) as u32));
    assert(bytes.subrange(9 + 4 * n, 9 + 4 * n + payload.len()) =~= payload);
    assert(bytes.subrange(9 + 4 * n + payload.len(), 13 + 4 * n + payload.len())
        =~= spec_u32_to_le(c.data.mask as u32));
    assert(bytes.subrange(13 + 4 * n + payload.len(), 17 + 4 * n + payload.len())
        =~= spec_u32_to_le(c.data.length as u32));
}

/// Round trip: two well-formed chunks with the same encoding hold the
/// same palette, the same packed values, and so the same block at
/// every cell.
pub proof fn lemma_serialization_round_trip(a: Chunk, b: Chunk)
    requires
        a.wf(),
        b.wf(),
        spec_serialize_chunk(a) == spec_serialize_chunk(b),
    ensures
        a.palette@ == b.palette@,
        a.data@ == b.data@,
        a.data.mask == b.data.mask,
        a.data.length == b.data.length,
        forall|x: int, y: int, z: int| a.spec_get(x, y, z) == b.spec_get(x, y, z),
{
    let bytes = spec_serialize_chunk(a);
    lemma_encoding_layout(a);
    lemma_encoding_layout(b);
    let na = a.palette@.len() as int;
    let nb = b.palette@.len() as int;
    lemma_u32_le_round_trip(na as u32, 0, 0, 0, 0);
    lemma_u32_le_round_trip(nb as u32, 0, 0, 0, 0);
    assert(spec_u32_to_le(na as u32) == spec_u32_to_le(nb as u32));
    assert(na == nb);
    let n = na;
    assert(spec_palette_bytes(a.palette@) == spec_palette_bytes(b.palette@));
    assert(a.palette@ =~= b.palette@) by {
        assert forall|k: int| 0 <= k < n implies a.palette@[k] == b.palette@[k] by {
            let ida = spec_block_id(a.palette@[k]);
            let idb = spec_block_id(b.palette@[k]);
            assert forall|j: int| 0 <= j < 4 implies spec_u32_to_le(ida)[j] == spec_u32_to_le(
                idb,
            )[j] by {
                lemma_palette_bytes_index(a.palette@, k, j);
                lemma_palette_bytes_index(b.palette@, k, j);
            }
            lemma_u32_le_round_trip(ida, 0, 0, 0, 0);
            lemma_u32_le_round_trip(idb, 0, 0, 0, 0);
            assert(ida == idb);
            assert(spec_block_of_id(ida) == a.palette@[k]);
            assert(spec_block_of_id(idb) == b.palette@[k]);
        }
    }
    assert(spec_tag(a.data.data) == spec_tag(b.data.data));
    let cnta = spec_count(a.data.data);
    let cntb = spec_count(b.data.data);
    lemma_u32_le_round_trip(cnta as u32, 0, 0, 0, 0);
    lemma_u32_le_round_trip(cntb as u32, 0, 0, 0, 0);
    assert(cnta as u32 == cntb as u32);
    lemma_count_bounded(a);
    lemma_count_bounded(b);
    assert(cnta == cntb);
    let pa = spec_payload(a.data.data);
    let pb = spec_payload(b.data.data);
    assert(pa == pb);
    lemma_u32_le_round_trip(a.data.mask as u32, 0, 0, 0, 0);
    lemma_u32_le_round_trip(b.data.mask as u32, 0, 0, 0, 0);
    assert(a.data.mask as u32 == b.data.mask as u32);
    assert(a.data.mask == b.data.mask);
    lemma_u32_le_round_trip(a.data.length as u32, 0, 0, 0, 0);
    lemma_u32_le_round_trip(b.data.length as u32, 0, 0, 0, 0);
    assert(a.data.length == b.data.length);
    lemma_buffers_equal(a.data, b.data, pa);
    assert forall|x: int, y: int, z: int| a.spec_get(x, y, z) == b.spec_get(x, y, z) by {
        assert(a.data@ == b.data@);
    }
}

/// The serialized element count fits in 32 bits for a well-formed chunk.
proof fn lemma_count_bounded(c: Chunk)
    requires
        c.wf(),
    ensures
        0 <= spec_count(c.data.data) <= 0xFFFF_FFFF,
{
}

/// Equal width tags and equal payload bytes give equal stored values.
proof fn lemma_buffers_equal(a: PackedUints, b: PackedUints, payload: Seq<u8>)
    requires
        spec_tag(a.data) == spec_tag(b.data),
        spec_count(a.data) == spec_count(b.data),
        spec_payload(a.data) == payload,
        spec_payload(b.data) == payload,
        a.length == b.length,
    ensures
        a@ == b@,
{
    assert forall|i: int| 0 <= i < a.length implies a.value_at(i) == b.value_at(i) by {
        lemma_buffer_views_equal(a, b, payload);
    }
    lemma_buffer_views_equal(a, b, payload);
    assert(a@ =~= b@);
}

/// The backing buffers behind equal payloads are equal element by element.
proof fn lemma_buffer_views_equal(a: PackedUints, b: PackedUints, payload: Seq<u8>)
    requires
        spec_tag(a.data) == spec_tag(b.data),
        spec_count(a.data) == spec_count(b.data),
        spec_payload(a.data) == payload,
        spec_payload(b.data) == payload,
    ensures
        match (a.data, b.data) {
            (PackedData::U4(ba), PackedData::U4(bb)) => ba@ == bb@,
            (PackedData::U8(ba), PackedData::U8(bb)) => ba@ == bb@,
            (PackedData::U16(ba), PackedData::U16(bb)) => ba@ == bb@,
            (PackedData::U32(ba), PackedData::U32(bb)) => ba@ == bb@,
            _ => false,
        },
{
    match (a.data, b.data) {
        (PackedData::U4(ba), PackedData::U4(bb)) => {
            assert(ba@ =~= bb@);
        },
        (PackedData::U8(ba), PackedData::U8(bb)) => {
            assert(ba@ =~= bb@);
        },
        (PackedData::U16(ba), PackedData::U16(bb)) => {
            assert(ba@ =~= bb@) by {
                assert forall|k: int| 0 <= k < ba@.len() implies ba@[k] == bb@[k] by {
                    lemma_u16_payload_index(ba@, k, 0);
                    lemma_u16_payload_index(ba@, k, 1);
                    lemma_u16_payload_index(bb@, k, 0);
                    lemma_u16_payload_index(bb@, k, 1);
                    lemma_u16_le_round_trip(ba@[k], 0, 0);
                    lemma_u16_le_round_trip(bb@[k], 0, 0);
                }
            }
        },
        (PackedData::U32(ba), PackedData::U32(bb)) => {
            assert(ba@ =~= bb@) by {
                assert forall|k: int| 0 <= k < ba@.len() implies ba@[k] == bb@[k] by {
                    lemma_u32_payload_index(ba@, k, 0);
                    lemma_u32_payload_index(ba@, k, 1);
                    lemma_u32_payload_index(ba@, k, 2);
                    lemma_u32_payload_index(ba@, k, 3);
                    lemma_u32_payload_index(bb@, k, 0);
                    lemma_u32_payload_index(bb@, k, 1);
                    lemma_u32_payload_index(bb@, k, 2);
                    lemma_u32_payload_index(bb@, k, 3);
                    lemma_u32_le_round_trip(ba@[k], 0, 0, 0, 0);
                    lemma_u32_le_round_trip(bb@[k], 0, 0, 0, 0);
                }
            }
        },
        _ => {},
    }
}

impl Chunk {
    /// Writes the chunk in the persisted binary format.
    pub fn serialize(&self) -> (r: Vec<u8>)
        requires
            self.wf(),
        ensures
            r@ == spec_serialize_chunk(*self),
    {
        let mut buf: Vec<u8> = Vec::new();
        let n = self.palette.len();
        push_u32_le(&mut buf, n as u32);
        let ghost head_pal = buf@;
        let mut k: usize = 0;
        while k < n
            invariant
                self.wf(),
                n == self.palette@.len(),
                k <= n,
                head_pal == spec_u32_to_le(n as u32),
                buf@ == head_pal + spec_palette_bytes(self.palette@.take(k as int)),
            decreases n - k,
        {
            let id = self.palette.get(k).to_id();
            push_u32_le(&mut buf, id);
            proof {
                let t = self.palette@.take(k as int + 1);
                assert(t.drop_last() =~= self.palette@.take(k as int));
                assert(t.last() == self.palette@[k as int]);
                assert(buf@ =~= head_pal + spec_palette_bytes(t));
            }
            k = k + 1;
        }
        proof {
            assert(self.palette@.take(n as int) =~= self.palette@);
        }
        match &self.data.data {
            PackedData::U4(b) => {
                buf.push(0u8);
                push_u32_le(&mut buf, b.len() as u32);
                let ghost head = buf@;
                let cnt = b.len();
                let mut k2: usize = 0;
                while k2 < cnt
                    invariant
                        k2 <= cnt,
                        cnt == b@.len(),
                        buf@ == head + b@.take(k2 as int),
                    decreases cnt - k2,
                {
                    buf.push(b[k2]);
                    proof {
                        assert(buf@ =~= head + b@.take(k2 as int + 1));
                    }
                    k2 = k2 + 1;
                }
                proof {
                    assert(b@.take(cnt as int) =~= b@);
                }
            },
            PackedData::U8(b) => {
                buf.push(1u8);
                push_u32_le(&mut buf, b.len() as u32);
                let ghost head = buf@;
                let cnt = b.len();
                let mut k2: usize = 0;
                while k2 < cnt
                    invariant
                        k2 <= cnt,
                        cnt == b@.len(),
                        buf@ == head + b@.take(k2 as int),
                    decreases cnt - k2,
                {
                    buf.push(b[k2]);
                    proof {
                        assert(buf@ =~= head + b@.take(k2 as int + 1));
                    }
                    k2 = k2 + 1;
                }
                proof {
                    assert(b@.take(cnt as int) =~= b@);
                }
            },
            PackedData::U16(b) => {
                buf.push(2u8);
                push_u32_le(&mut buf, b.len() as u32);
                let ghost head = buf@;
                let cnt = b.len();
                let mut k2: usize = 0;
                while k2 < cnt
                    invariant
                        k2 <= cnt,
                        cnt == b@.len(),
                        buf@ == head + spec_u16_payload(b@.take(k2 as int)),
                    decreases cnt - k2,
                {
                    push_u16_le(&mut buf, b[k2]);
                    proof {
                        let t = b@.take(k2 as int + 1);
                        assert(t.drop_last() =~= b@.take(k2 as int));
                        assert(t.last() == b@[k2 as int]);
                        assert(buf@ =~= head + spec_u16_payload(t));
                    }
                    k2 = k2 + 1;
                }
                proof {
                    assert(b@.take(cnt as int) =~= b@);
                }
            },
            PackedData::U32(b) => {
                buf.push(3u8);
                push_u32_le(&mut buf, b.len() as u32);
                let ghost head = buf@;
                let cnt = b.len();
                let mut k2: usize = 0;
                while k2 < cnt
                    invariant
                        k2 <= cnt,
                        cnt == b@.len(),
                        buf@ == head + spec_u32_payload(b@.take(k2 as int)),
                    decreases cnt - k2,
                {
                    push_u32_le(&mut buf, b[k2]);
                    proof {
                        let t = b@.take(k2 as int + 1);
                        assert(t.drop_last() =~= b@.take(k2 as int));
                        assert(t.last() == b@[k2 as int]);
                        assert(buf@ =~= head + spec_u32_payload(t));
                    }
                    k2 = k2 + 1;
                }
                proof {
                    assert(b@.take(cnt as int) =~= b@);
                }
            },
        }
        push_u32_le(&mut buf, self.data.mask as u32);
        push_u32_le(&mut buf, self.data.length as u32);
        proof {
            assert(buf@ =~= spec_serialize_chunk(*self));
        }
        buf
    }

    /// Reads a chunk back from the persisted binary format.
    #[verifier::rlimit(100)]
    pub fn deserialize(bytes: &[u8]) -> (r: Chunk)
        requires
            spec_valid_encoding(bytes@),
        ensures
            r.wf(),
            spec_serialize_chunk(r) == bytes@,
    {
        let ghost c = choose|c: Chunk| c.wf() && bytes@ == spec_serialize_chunk(c);
        let ghost n = c.palette@.len() as int;
        let ghost payload = spec_payload(c.data.data);
        let ghost pbytes = spec_palette_bytes(c.palette@);
        proof {
            lemma_encoding_layout(c);
            lemma_payload_len(c.data.data);
            lemma_palette_bytes_len(c.palette@);
            lemma_count_bounded(c);
            assert forall|j: int| 0 <= j < pbytes.len() implies bytes@[4 + j] == #[trigger] pbytes[j] by {
                assert(bytes@.subrange(4, 4 + 4 * n)[j] == bytes@[4 + j]);
            }
            assert forall|j: int| 0 <= j < payload.len() implies bytes@[9 + 4 * n + j]
                == #[trigger] payload[j] by {
                assert(bytes@.subrange(9 + 4 * n, 9 + 4 * n + payload.len())[j] == bytes@[9 + 4 * n
                    + j]);
            }
        }
        let psize_u32 = read_u32_le(bytes, 0);
        proof {
            assert(bytes@.subrange(0, 4)[0] == bytes@[0]);
            assert(bytes@.subrange(0, 4)[1] == bytes@[1]);
            assert(bytes@.subrange(0, 4)[2] == bytes@[2]);
            assert(bytes@.subrange(0, 4)[3] == bytes@[3]);
            lemma_u32_le_round_trip(c.palette@.len() as u32, 0, 0, 0, 0);
            assert(psize_u32 == c.palette@.len() as u32);
        }
        let psize = psize_u32 as usize;
        let blen = bytes.len();
        proof {
            assert(psize == n);
            assert(blen == bytes@.len());
        }
        let mut palette = Palette::new();
        let mut k: usize = 0;
        while k < psize
            invariant
                psize == n,
                n == c.palette@.len(),
                pbytes == spec_palette_bytes(c.palette@),
                pbytes.len() == 4 * n,
                forall|j: int| 0 <= j < pbytes.len() ==> bytes@[4 + j] == #[trigger] pbytes[j],
                17 + 4 * n <= bytes@.len(),
                bytes@.len() <= usize::MAX,
                forall|i: int, j: int|
                    0 <= i < j < c.palette@.len() ==> c.palette@[i] != c.palette@[j],
                k <= psize,
                palette.wf(),
                palette@ == c.palette@.take(k as int),
            decreases psize - k,
        {
            let id = read_u32_le(bytes, 4 + 4 * k);
            proof {
                lemma_palette_bytes_index(c.palette@, k as int, 0);
                lemma_palette_bytes_index(c.palette@, k as int, 1);
                lemma_palette_bytes_index(c.palette@, k as int, 2);
                lemma_palette_bytes_index(c.palette@, k as int, 3);
                lemma_u32_le_round_trip(spec_block_id(c.palette@[k as int]), 0, 0, 0, 0);
                assert(id == spec_block_id(c.palette@[k as int]));
            }
            let b = Block::from_id(id);
            proof {
                assert(b == c.palette@[k as int]);
                assert(!c.palette@.take(k as int).contains(b)) by {
                    if c.palette@.take(k as int).contains(b) {
                        let j = choose|j: int| 0 <= j < k && c.palette@.take(k as int)[j] == b;
                        assert(c.palette@[j] == c.palette@[k as int]);
                    }
                }
            }
            palette.index(b);
            proof {
                assert(palette@ =~= c.palette@.take(k as int + 1));
            }
            k = k + 1;
        }
        proof {
            assert(c.palette@.take(psize as int) =~= c.palette@);
            assert(palette@ == c.palette@);
        }
        let toff = 4 + 4 * psize;
        let tag = bytes[toff];
        proof {
            assert(tag == spec_tag(c.data.data));
        }
        let cnt_u32 = read_u32_le(bytes, toff + 1);
        proof {
            assert(bytes@.subrange(5 + 4 * n, 9 + 4 * n)[0] == bytes@[5 + 4 * n + 0]);
            assert(bytes@.subrange(5 + 4 * n, 9 + 4 * n)[1] == bytes@[5 + 4 * n + 1]);
            assert(bytes@.subrange(5 + 4 * n, 9 + 4 * n)[2] == bytes@[5 + 4 * n + 2]);
            assert(bytes@.subrange(5 + 4 * n, 9 + 4 * n)[3] == bytes@[5 + 4 * n + 3]);
            lemma_u32_le_round_trip(spec_count(c.data.data) as u32, 0, 0, 0, 0);
            assert(cnt_u32 == spec_count(c.data.data) as u32);
        }
        let cnt = cnt_u32 as usize;
        proof {
            assert(cnt == spec_count(c.data.data));
        }
        let poff = toff + 5;
        let plen: usize;
        let data: PackedData;
        if tag == 0 || tag == 1 {
            let mut v: Vec<u8> = Vec::new();
            let mut k2: usize = 0;
            while k2 < cnt
                invariant
                    payload == spec_payload(c.data.data),
                    cnt == spec_count(c.data.data),
                    c.data.data is U4 || c.data.data is U8,
                    poff == 9 + 4 * c.palette@.len(),
                    forall|j: int| 0 <= j < payload.len() ==> bytes@[poff + j] == #[trigger] payload[j],
                    payload.len() == cnt,
                    poff + payload.len() + 8 <= bytes@.len(),
                    bytes@.len() <= usize::MAX,
                    k2 <= cnt,
                    v@ == payload.take(k2 as int),
                decreases cnt - k2,
            {
                v.push(bytes[poff + k2]);
                proof {
                    assert(v@ =~= payload.take(k2 as int + 1));
                }
                k2 = k2 + 1;
            }
            proof {
                assert(payload.take(cnt as int) =~= payload);
            }
            plen = cnt;
            data = if tag == 0 {
                PackedData::U4(v)
            } else {
                PackedData::U8(v)
            };
        } else if tag == 2 {
            let ghost b16 = c.data.data->U16_0@;
            let mut v: Vec<u16> = Vec::new();
            let mut k2: usize = 0;
            while k2 < cnt
                invariant
                    payload == spec_payload(c.data.data),
                    cnt == spec_count(c.data.data),
                    c.data.data is U16,
                    b16 == c.data.data->U16_0@,
                    cnt == b16.len(),
                    poff == 9 + 4 * c.palette@.len(),
                    forall|j: int| 0 <= j < payload.len() ==> bytes@[poff + j] == #[trigger] payload[j],
                    payload.len() == 2 * cnt,
                    poff + payload.len() + 8 <= bytes@.len(),
                    bytes@.len() <= usize::MAX,
                    k2 <= cnt,
                    v@ == b16.take(k2 as int),
                decreases cnt - k2,
            {
                let e = read_u16_le(bytes, poff + 2 * k2);
                proof {
                    lemma_u16_payload_index(b16, k2 as int, 0);
                    lemma_u16_payload_index(b16, k2 as int, 1);
                    lemma_u16_le_round_trip(b16[k2 as int], 0, 0);
                    assert(e == b16[k2 as int]);
                }
                v.push(e);
                proof {
                    assert(v@ =~= b16.take(k2 as int + 1));
                }
                k2 = k2 + 1;
            }
            proof {
                assert(b16.take(cnt as int) =~= b16);
            }
            plen = 2 * cnt;
            data = PackedData::U16(v);
        } else {
            proof {
                assert(tag == 3);
                assert(c.data.data is U32);
            }
            let ghost b32 = c.data.data->U32_0@;
            let mut v: Vec<u32> = Vec::new();
            let mut k2: usize = 0;
            while k2 < cnt
                invariant
                    payload == spec_payload(c.data.data),
                    cnt == spec_count(c.data.data),
                    c.data.data is U32,
                    b32 == c.data.data->U32_0@,
                    cnt == b32.len(),
                    poff == 9 + 4 * c.palette@.len(),
                    forall|j: int| 0 <= j < payload.len() ==> bytes@[poff + j] == #[trigger] payload[j],
                    payload.len() == 4 * cnt,
                    poff + payload.len() + 8 <= bytes@.len(),
                    bytes@.len() <= usize::MAX,
                    k2 <= cnt,
                    v@ == b32.take(k2 as int),
                decreases cnt - k2,
            {
                let e = read_u32_le(bytes, poff + 4 * k2);
                proof {
                    lemma_u32_payload_index(b32, k2 as int, 0);
                    lemma_u32_payload_index(b32, k2 as int, 1);
                    lemma_u32_payload_index(b32, k2 as int, 2);
                    lemma_u32_payload_index(b32, k2 as int, 3);
                    lemma_u32_le_round_trip(b32[k2 as int], 0, 0, 0, 0);
                    assert(e == b32[k2 as int]);
                }
                v.push(e);
                proof {
                    assert(v@ =~= b32.take(k2 as int + 1));
                }
                k2 = k2 + 1;
            }
            proof {
                assert(b32.take(cnt as int) =~= b32);
            }
            plen = 4 * cnt;
            data = PackedData::U32(v);
        }
        proof {
            assert(plen == payload.len());
        }
        let mask_u32 = read_u32_le(bytes, poff + plen);
        let length_u32 = read_u32_le(bytes, poff + plen + 4);
        proof {
            assert(bytes@.subrange(9 + 4 * n + payload.len(), 13 + 4 * n + payload.len())[0]
                == bytes@[9 + 4 * n + payload.len() + 0]);
            assert(bytes@.subrange(9 + 4 * n + payload.len(), 13 + 4 * n + payload.len())[1]
                == bytes@[9 + 4 * n + payload.len() + 1]);
            assert(bytes@.subrange(9 + 4 * n + payload.len(), 13 + 4 * n + payload.len())[2]
                == bytes@[9 + 4 * n + payload.len() + 2]);
            assert(bytes@.subrange(9 + 4 * n + payload.len(), 13 + 4 * n + payload.len())[3]
                == bytes@[9 + 4 * n + payload.len() + 3]);
            assert(bytes@.subrange(13 + 4 * n + payload.len(), 17 + 4 * n + payload.len())[0]
                == bytes@[13 + 4 * n + payload.len() + 0]);
            assert(bytes@.subrange(13 + 4 * n + payload.len(), 17 + 4 * n + payload.len())[1]
                == bytes@[13 + 4 * n + payload.len() + 1]);
            assert(bytes@.subrange(13 + 4 * n + payload.len(), 17 + 4 * n + payload.len())[2]
                == bytes@[13 + 4 * n + payload.len() + 2]);
            assert(bytes@.subrange(13 + 4 * n + payload.len(), 17 + 4 * n + payload.len())[3]
                == bytes@[13 + 4 * n + payload.len() + 3]);
            lemma_u32_le_round_trip(c.data.mask as u32, 0, 0, 0, 0);
            lemma_u32_le_round_trip(c.data.length as u32, 0, 0, 0, 0);
            assert(mask_u32 == c.data.mask as u32);
            assert(length_u32 == c.data.length as u32);
        }
        let mask = mask_u32 as usize;
        let length = length_u32 as usize;
        proof {
            assert(mask == c.data.mask);
            assert(length == c.data.length);
        }
        let r = Chunk { data: PackedUints { data, mask, length }, palette };
        proof {
            assert(r.data@ =~= c.data@);
            assert(r.wf()) by {
                assert(forall|i: int|
                    0 <= i < r.data@.len() ==> (#[trigger] r.data@[i]) < r.palette@.len());
            }
            assert(spec_serialize_chunk(r) == bytes@) by {
                assert(spec_palette_bytes(r.palette@) == spec_palette_bytes(c.palette@));
                assert(spec_tag(r.data.data) == spec_tag(c.data.data));
                assert(spec_count(r.data.data) == spec_count(c.data.data));
                assert(spec_payload(r.data.data) == spec_payload(c.data.data));
            }
        }
        r
    }
}

} // verus!
