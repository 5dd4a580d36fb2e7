//! Chunk records: type tags, the cyclic redundancy checksum and validity.

use vstd::prelude::*;
use vstd::string::*;
use crate::text::{decimal, push_decimal};

verus! {

/// The reflected CRC-32 polynomial.
pub const CRC_POLYNOMIAL: u32 = 0xEDB8_8320;

/// One shift step of the bit-serial checksum register.
pub open spec fn crc_shift(c: u32) -> u32 {
    if c & 1 != 0 {
        (c >> 1) ^ CRC_POLYNOMIAL
    } else {
        c >> 1
    }
}

/// `n` shift steps applied to the register `c`.
pub open spec fn crc_shifts(c: u32, n: nat) -> u32
    decreases n,
{
    if n == 0 {
        c
    } else {
        crc_shift(crc_shifts(c, (n - 1) as nat))
    }
}

/// The register after the byte `b` has been fed into register `c`.
pub open spec fn crc_byte(c: u32, b: u8) -> u32 {
    crc_shifts(c ^ (b as u32), 8)
}

/// The register after all of `bytes` have been fed, in order, into register `c`.
pub open spec fn crc_fold(c: u32, bytes: Seq<u8>) -> u32
    decreases bytes.len(),
{
    if bytes.len() == 0 {
        c
    } else {
        crc_byte(crc_fold(c, bytes.drop_last()), bytes.last())
    }
}

/// CRC-32 of a byte sequence: all-ones initial register, complemented at the end.
pub open spec fn spec_crc32(bytes: Seq<u8>) -> u32 {
    !crc_fold(0xFFFF_FFFFu32, bytes)
}

/// Feeding `a` and then `b` is the same as feeding their concatenation.
pub proof fn lemma_crc_fold_concat(c: u32, a: Seq<u8>, b: Seq<u8>)
    ensures
        crc_fold(c, a + b) == crc_fold(crc_fold(c, a), b),
    decreases b.len(),
{
    if b.len() == 0 {
        assert(a + b =~= a);
    } else {
        lemma_crc_fold_concat(c, a, b.drop_last());
        assert((a + b).drop_last() =~= a + b.drop_last());
        assert((a + b).last() == b.last());
    }
}

/// Feeds `bytes` into the register `c`.
fn crc_update(c: u32, bytes: &[u8]) -> (r: u32)
    ensures
        r == crc_fold(c, bytes@),
{
    let mut crc: u32 = c;
    let mut i: usize = 0;
    while i < bytes.len()
        invariant
            i <= bytes.len(),
            crc == crc_fold(c, bytes@.subrange(0, i as int)),
        decreases bytes.len() - i,
    {
        let ghost before = crc;
        crc = crc ^ (bytes[i] as u32);
        let ghost start = crc;
        let mut k: u8 = 0;
        while k < 8
            invariant
                k <= 8,
                crc == crc_shifts(start, k as nat),
            decreases 8 - k,
        {
            crc = if crc & 1 != 0 {
                (crc >> 1) ^ CRC_POLYNOMIAL
            } else {
                crc >> 1
            };
            k = k + 1;
        }
        proof {
            let next = bytes@.subrange(0, i + 1);
            assert(next.drop_last() =~= bytes@.subrange(0, i as int));
            assert(next.last() == bytes@[i as int]);
            assert(crc == crc_byte(before, bytes@[i as int]));
        }
        i = i + 1;
    }
    proof {
        assert(bytes@.subrange(0, i as int) =~= bytes@);
    }
    crc
}

/// CRC-32 over a chunk's type tag followed by its payload.
pub fn crc32(chunk_type: &[u8], data: &[u8]) -> (r: u32)
    ensures
        r == spec_crc32(chunk_type@ + data@),
{
    let init: u32 = 0xFFFF_FFFF;
    let mid: u32 = crc_update(init, chunk_type);
    let end: u32 = crc_update(mid, data);
    proof {
        lemma_crc_fold_concat(init, chunk_type@, data@);
    }
    !end
}

/// A shift step loses nothing: distinct registers stay distinct.
proof fn lemma_crc_shift_injective(x: u32, y: u32)
    by (bit_vector)
    ensures
        crc_shift(x) == crc_shift(y) ==> x == y,
{
}

proof fn lemma_crc_shifts_injective(x: u32, y: u32, n: nat)
    requires
        x != y,
    ensures
        crc_shifts(x, n) != crc_shifts(y, n),
    decreases n,
{
    if n > 0 {
        lemma_crc_shifts_injective(x, y, (n - 1) as nat);
        lemma_crc_shift_injective(crc_shifts(x, (n - 1) as nat), crc_shifts(y, (n - 1) as nat));
    }
}

/// Feeding one byte into two distinct registers gives two distinct registers.
proof fn lemma_crc_byte_separates_registers(x: u32, y: u32, b: u8)
    requires
        x != y,
    ensures
        crc_byte(x, b) != crc_byte(y, b),
{
    let w: u32 = b as u32;
    assert(x ^ w != y ^ w) by (bit_vector)
        requires
            x != y,
    ;
    lemma_crc_shifts_injective(x ^ w, y ^ w, 8);
}

/// Feeding two distinct bytes into one register gives two distinct registers.
proof fn lemma_crc_byte_separates_bytes(c: u32, a: u8, b: u8)
    requires
        a != b,
    ensures
        crc_byte(c, a) != crc_byte(c, b),
{
    let wa: u32 = a as u32;
    let wb: u32 = b as u32;
    assert(c ^ wa != c ^ wb) by (bit_vector)
        requires
            wa != wb,
    ;
    lemma_crc_shifts_injective(c ^ wa, c ^ wb, 8);
}

/// Two sequences of one length that differ at exactly one position leave
/// the register in different states.
proof fn lemma_crc_fold_single_difference(c: u32, a: Seq<u8>, b: Seq<u8>, k: int)
    requires
        a.len() == b.len(),
        0 <= k < a.len(),
        a[k] != b[k],
        forall|j: int| 0 <= j < a.len() && j != k ==> a[j] == b[j],
    ensures
        crc_fold(c, a) != crc_fold(c, b),
    decreases a.len(),
{
    if k == a.len() - 1 {
        assert(a.drop_last() =~= b.drop_last());
        lemma_crc_byte_separates_bytes(crc_fold(c, a.drop_last()), a.last(), b.last());
    } else {
        lemma_crc_fold_single_difference(c, a.drop_last(), b.drop_last(), k);
        lemma_crc_byte_separates_registers(
            crc_fold(c, a.drop_last()),
            crc_fold(c, b.drop_last()),
            a.last(),
        );
    }
}

/// The checksum notices every change of a single payload byte: replacing
/// the byte at position `i` of `data` by a different value `v` changes the
/// CRC-32 of `tag` followed by `data`.
pub proof fn lemma_crc32_single_byte_change(tag: Seq<u8>, data: Seq<u8>, i: int, v: u8)
    requires
        0 <= i < data.len(),
        v != data[i],
    ensures
        spec_crc32(tag + data.update(i, v)) != spec_crc32(tag + data),
{
    let a = tag + data;
    let b = tag + data.update(i, v);
    let k = tag.len() + i;
    assert(a[k] == data[i]);
    assert(b[k] == v);
    assert forall|j: int| 0 <= j < a.len() && j != k implies a[j] == b[j] by {
        if j >= tag.len() {
            assert(a[j] == data[j - tag.len()]);
            assert(b[j] == data.update(i, v)[j - tag.len()]);
        }
    }
    lemma_crc_fold_single_difference(0xFFFF_FFFFu32, a, b, k);
    let x = crc_fold(0xFFFF_FFFFu32, a);
    let y = crc_fold(0xFFFF_FFFFu32, b);
    assert(!x != !y) by (bit_vector)
        requires
            x != y,
    ;
}

/// The kinds of chunk that the decoder tells apart.
#[derive(Debug, Clone, Copy, PartialEq, Eq, Structural)]
pub enum ChunkType {
    IHDR,
    IDAT,
    IEND,
    Unknown,
}

impl ChunkType {
    /// The four tag bytes that stand for this kind; an unknown kind has
    /// four zero bytes.
    pub open spec fn tag(self) -> Seq<u8> {
        match self {
            ChunkType::IHDR => seq![73u8, 72u8, 68u8, 82u8],
            ChunkType::IDAT => seq![73u8, 68u8, 65u8, 84u8],
            ChunkType::IEND => seq![73u8, 69u8, 78u8, 68u8],
            ChunkType::Unknown => seq![0u8, 0u8, 0u8, 0u8],
        }
    }

    /// The kind that four tag bytes stand for.
    pub open spec fn of_tag(bytes: Seq<u8>) -> ChunkType {
        if bytes == ChunkType::IHDR.tag() {
            ChunkType::IHDR
        } else if bytes == ChunkType::IDAT.tag() {
            ChunkType::IDAT
        } else if bytes == ChunkType::IEND.tag() {
            ChunkType::IEND
        } else {
            ChunkType::Unknown
        }
    }

    /// The printed name of this kind.
    pub open spec fn name(self) -> Seq<char> {
        match self {
            ChunkType::IHDR => "IHDR"@,
            ChunkType::IDAT => "IDAT"@,
            ChunkType::IEND => "IEND"@,
            ChunkType::Unknown => "unknown"@,
        }
    }

    /// The kind that a four-letter name stands for.
    pub open spec fn of_name(name: Seq<char>) -> ChunkType {
        if name == "IHDR"@ {
            ChunkType::IHDR
        } else if name == "IDAT"@ {
            ChunkType::IDAT
        } else if name == "IEND"@ {
            ChunkType::IEND
        } else {
            ChunkType::Unknown
        }
    }

    /// The kind that a name stands for; any name but the three known ones
    /// gives the unknown kind.
    pub fn from_str(chunk_type: &str) -> (r: Self)
        ensures
            r == Self::of_name(chunk_type@),
    {
        proof {
            reveal_strlit("IHDR");
            reveal_strlit("IDAT");
            reveal_strlit("IEND");
        }
        if !chunk_type.is_ascii() || chunk_type.unicode_len() != 4 {
            return ChunkType::Unknown;
        }
        let b0: u8 = chunk_type.get_ascii(0);
        let b1: u8 = chunk_type.get_ascii(1);
        let b2: u8 = chunk_type.get_ascii(2);
        let b3: u8 = chunk_type.get_ascii(3);
        let r = Self::from_bytes([b0, b1, b2, b3]);
        proof {
            let s = chunk_type@;
            assert(forall|i: int| 0 <= i < 4 ==> (#[trigger] s[i]) as u32 <= 127);
            if r == ChunkType::IHDR {
                assert(s =~= "IHDR"@);
            }
            if r == ChunkType::IDAT {
                assert(s =~= "IDAT"@);
            }
            if r == ChunkType::IEND {
                assert(s =~= "IEND"@);
            }
        }
        r
    }

    /// The printed name of this kind.
    pub fn as_str(&self) -> (r: &'static str)
        ensures
            r@ == self.name(),
    {
        match self {
            ChunkType::IHDR => "IHDR",
            ChunkType::IDAT => "IDAT",
            ChunkType::IEND => "IEND",
            ChunkType::Unknown => "unknown",
        }
    }

    /// Whether two kinds have the same tag bytes, which is to say: are the
    /// same kind.
    pub fn is_same_as(&self, chunk_type: &ChunkType) -> (r: bool)
        ensures
            r == (self.tag() == chunk_type.tag()),
            r == (*self == *chunk_type),
    {
        proof {
            lemma_tags_distinct();
        }
        *self == *chunk_type
    }

    /// The four tag bytes of this kind.
    pub fn as_bytes(&self) -> (r: [u8; 4])
        ensures
            r@ == self.tag(),
    {
        let r: [u8; 4] = match self {
            ChunkType::IHDR => [73, 72, 68, 82],
            ChunkType::IDAT => [73, 68, 65, 84],
            ChunkType::IEND => [73, 69, 78, 68],
            ChunkType::Unknown => [0, 0, 0, 0],
        };
        assert(r@ =~= self.tag());
        r
    }

    /// The kind that four tag bytes stand for; any tag but the three known
    /// ones gives the unknown kind.
    pub fn from_bytes(bytes: [u8; 4]) -> (r: Self)
        ensures
            r == Self::of_tag(bytes@),
    {
        let b0: u8 = bytes[0];
        let b1: u8 = bytes[1];
        let b2: u8 = bytes[2];
        let b3: u8 = bytes[3];
        proof {
            assert(bytes@ =~= seq![b0, b1, b2, b3]);
            lemma_tag_bytes(b0, b1, b2, b3);
        }
        if b0 == 73 && b1 == 72 && b2 == 68 && b3 == 82 {
            ChunkType::IHDR
        } else if b0 == 73 && b1 == 68 && b2 == 65 && b3 == 84 {
            ChunkType::IDAT
        } else if b0 == 73 && b1 == 69 && b2 == 78 && b3 == 68 {
            ChunkType::IEND
        } else {
            ChunkType::Unknown
        }
    }
}

/// Four bytes equal a kind's tag exactly when they equal it byte by byte.
proof fn lemma_tag_bytes(b0: u8, b1: u8, b2: u8, b3: u8)
    ensures
        (seq![b0, b1, b2, b3] == ChunkType::IHDR.tag()) == (b0 == 73 && b1 == 72 && b2 == 68 && b3
            == 82),
        (seq![b0, b1, b2, b3] == ChunkType::IDAT.tag()) == (b0 == 73 && b1 == 68 && b2 == 65 && b3
            == 84),
        (seq![b0, b1, b2, b3] == ChunkType::IEND.tag()) == (b0 == 73 && b1 == 69 && b2 == 78 && b3
            == 68),
{
    let s = seq![b0, b1, b2, b3];
    assert(s[0] == b0 && s[1] == b1 && s[2] == b2 && s[3] == b3);
    let h = ChunkType::IHDR.tag();
    assert(h[0] == 73 && h[1] == 72 && h[2] == 68 && h[3] == 82);
    let d = ChunkType::IDAT.tag();
    assert(d[0] == 73 && d[1] == 68 && d[2] == 65 && d[3] == 84);
    let e = ChunkType::IEND.tag();
    assert(e[0] == 73 && e[1] == 69 && e[2] == 78 && e[3] == 68);
    if b0 == 73 && b1 == 72 && b2 == 68 && b3 == 82 {
        assert(s =~= h);
    }
    if b0 == 73 && b1 == 68 && b2 == 65 && b3 == 84 {
        assert(s =~= d);
    }
    if b0 == 73 && b1 == 69 && b2 == 78 && b3 == 68 {
        assert(s =~= e);
    }
}

/// No two kinds share a tag, and a tag read back gives the kind it came from.
pub proof fn lemma_tags_distinct()
    ensures
        forall|a: ChunkType, b: ChunkType| a.tag() == b.tag() ==> a == b,
        forall|a: ChunkType| ChunkType::of_tag(#[trigger] a.tag()) == a,
{
    let h = ChunkType::IHDR.tag();
    let d = ChunkType::IDAT.tag();
    let e = ChunkType::IEND.tag();
    let u = ChunkType::Unknown.tag();
    assert(h[1] == 72 && d[1] == 68 && e[1] == 69 && u[1] == 0);
    assert forall|a: ChunkType, b: ChunkType| a.tag() == b.tag() implies a == b by {
        assert(a.tag()[1] == b.tag()[1]);
    }
    assert forall|a: ChunkType| ChunkType::of_tag(#[trigger] a.tag()) == a by {
        assert(a.tag()[1] == a.tag()[1]);
    }
}

/// Whether bit 5 (0x20) of a tag byte is clear, which for a letter means
/// that it is upper case.
pub open spec fn bit_five_clear(b: u8) -> bool {
    b & 0x20 == 0
}

/// Bit 5 of a byte is clear exactly when the byte, divided by 32, is even.
pub proof fn lemma_bit_five_clear(b: u8)
    ensures
        bit_five_clear(b) == ((b / 32) % 2 == 0),
{
    assert((b & 0x20 == 0) == ((b / 32) % 2 == 0)) by (bit_vector);
}

/// Whether a tag byte is an upper-case ASCII letter.
pub open spec fn is_upper_letter(b: u8) -> bool {
    65 <= b <= 90
}

/// Whether a tag byte is an ASCII letter of either case.
pub open spec fn is_letter(b: u8) -> bool {
    65 <= b <= 90 || 97 <= b <= 122
}

/// Among letters, the upper-case ones are those with bit 5 clear.
pub proof fn lemma_upper_letter_is_bit_five_clear(b: u8)
    requires
        is_letter(b),
    ensures
        is_upper_letter(b) == bit_five_clear(b),
{
    assert((65 <= b <= 90 || 97 <= b <= 122) ==> ((65 <= b <= 90) == (b & 0x20 == 0)))
        by (bit_vector);
}

/// The first three tag bytes of the three known kinds have bit 5 clear:
/// header, image-data and end chunks are critical, public and conforming.
pub proof fn lemma_known_kind_bits(kind: ChunkType)
    requires
        kind != ChunkType::Unknown,
    ensures
        bit_five_clear(kind.tag()[0]),
        bit_five_clear(kind.tag()[1]),
        bit_five_clear(kind.tag()[2]),
{
    assert(73u8 & 0x20 == 0) by (bit_vector);
    assert(72u8 & 0x20 == 0) by (bit_vector);
    assert(68u8 & 0x20 == 0) by (bit_vector);
    assert(65u8 & 0x20 == 0) by (bit_vector);
    assert(69u8 & 0x20 == 0) by (bit_vector);
    assert(78u8 & 0x20 == 0) by (bit_vector);
}

/// One record of the byte stream: the declared payload length, the kind,
/// the four tag bytes as they stand in the stream, the payload and the
/// stored checksum.
#[derive(Debug, Clone, PartialEq, Eq)]
pub struct Chunk {
    pub length: u32,
    pub chunk_type: ChunkType,
    pub type_code: [u8; 4],
    pub data: Vec<u8>,
    pub crc: u32,
}

/// A chunk record as plain values.
pub struct ChunkView {
    pub length: u32,
    pub chunk_type: ChunkType,
    pub type_code: Seq<u8>,
    pub data: Seq<u8>,
    pub crc: u32,
}

impl View for Chunk {
    type V = ChunkView;

    open spec fn view(&self) -> ChunkView {
        ChunkView {
            length: self.length,
            chunk_type: self.chunk_type,
            type_code: self.type_code@,
            data: self.data@,
            crc: self.crc,
        }
    }
}

impl ChunkView {
    /// The kind is the one that the tag bytes stand for. Both constructors
    /// and the parser give records of which this holds.
    pub open spec fn well_formed(self) -> bool {
        self.type_code.len() == 4 && self.chunk_type == ChunkType::of_tag(self.type_code)
    }

    /// Bit 5 of the first tag byte is clear: the chunk is critical.
    pub open spec fn is_critical(self) -> bool {
        bit_five_clear(self.type_code[0])
    }

    /// Bit 5 of the second tag byte is clear: the chunk is public.
    pub open spec fn is_public(self) -> bool {
        bit_five_clear(self.type_code[1])
    }

    /// Bit 5 of the third tag byte is clear: the reserved bit is as it
    /// must be.
    pub open spec fn is_reserved_bit_valid(self) -> bool {
        bit_five_clear(self.type_code[2])
    }

    /// The stored checksum is the CRC-32 of the tag bytes followed by the
    /// payload.
    pub open spec fn verify_crc(self) -> bool {
        spec_crc32(self.type_code + self.data) == self.crc
    }

    /// The three tag bits are clear and the checksum matches.
    pub open spec fn is_valid(self) -> bool {
        &&& self.is_critical()
        &&& self.is_public()
        &&& self.is_reserved_bit_valid()
        &&& self.verify_crc()
    }

    /// The line that is printed of a chunk: its kind, its declared length,
    /// its stored checksum and whether it is usable.
    pub open spec fn summary(self) -> Seq<char> {
        "Type: "@ + self.chunk_type.name() + " ("@ + decimal(self.length as nat)
            + " bytes), CRC: "@ + decimal(self.crc as nat) + ", Validity: "@ + if self.is_valid() {
            "Valid"@
        } else {
            "Invalid"@
        }
    }
}

impl Chunk {
    /// The line that is printed of a chunk.
    pub fn to_string(&self) -> (r: String)
        ensures
            r@ == self@.summary(),
    {
        let mut out = String::from_str("Type: ");
        out.append(self.chunk_type.as_str());
        out.append(" (");
        push_decimal(&mut out, self.length as u64);
        out.append(" bytes), CRC: ");
        push_decimal(&mut out, self.crc as u64);
        out.append(", Validity: ");
        if self.is_valid() {
            out.append("Valid");
        } else {
            out.append("Invalid");
        }
        out
    }

    /// A record of the given fields, with the tag bytes of its kind: four
    /// zero bytes for the unknown kind. Nothing is checked: whether the
    /// checksum matches is asked of the record afterwards.
    pub fn new(length: u32, chunk_type: ChunkType, data: Vec<u8>, crc: u32) -> (r: Self)
        ensures
            r.length == length,
            r.chunk_type == chunk_type,
            r.type_code@ == chunk_type.tag(),
            r.data == data,
            r.crc == crc,
            r@.well_formed(),
    {
        proof {
            lemma_tags_distinct();
        }
        let type_code: [u8; 4] = chunk_type.as_bytes();
        Self { length, chunk_type, type_code, data, crc }
    }

    /// A record of the given fields whose tag bytes are `type_code`, of the
    /// kind that those bytes stand for.
    pub fn with_type_code(length: u32, type_code: [u8; 4], data: Vec<u8>, crc: u32) -> (r: Self)
        ensures
            r.length == length,
            r.chunk_type == ChunkType::of_tag(type_code@),
            r.type_code == type_code,
            r.data == data,
            r.crc == crc,
            r@.well_formed(),
    {
        let chunk_type = ChunkType::from_bytes(type_code);
        Self { length, chunk_type, type_code, data, crc }
    }

    /// Whether bit 5 of the first tag byte is clear.
    pub fn is_critical(&self) -> (r: bool)
        ensures
            r == self@.is_critical(),
            r == ((self.type_code[0] / 32) % 2 == 0),
    {
        proof {
            lemma_bit_five_clear(self.type_code[0]);
        }
        self.type_code[0] & 0x20 == 0
    }

    /// Whether bit 5 of the second tag byte is clear.
    pub fn is_public(&self) -> (r: bool)
        ensures
            r == self@.is_public(),
            r == ((self.type_code[1] / 32) % 2 == 0),
    {
        proof {
            lemma_bit_five_clear(self.type_code[1]);
        }
        self.type_code[1] & 0x20 == 0
    }

    /// Whether bit 5 of the third tag byte is clear.
    pub fn is_reserved_bit_valid(&self) -> (r: bool)
        ensures
            r == self@.is_reserved_bit_valid(),
            r == ((self.type_code[2] / 32) % 2 == 0),
    {
        proof {
            lemma_bit_five_clear(self.type_code[2]);
        }
        self.type_code[2] & 0x20 == 0
    }

    /// Whether the stored checksum is the CRC-32 of the tag bytes and the
    /// payload.
    pub fn verify_crc(&self) -> (r: bool)
        ensures
            r == self@.verify_crc(),
    {
        crc32(self.type_code.as_slice(), self.data.as_slice()) == self.crc
    }

    /// Whether the three tag bits are clear and the checksum matches.
    pub fn is_valid(&self) -> (r: bool)
        ensures
            r == self@.is_valid(),
    {
        self.is_critical() && self.is_public() && self.is_reserved_bit_valid() && self.verify_crc()
    }
}

/// A chunk of one of the three known kinds is usable exactly when its
/// checksum matches.
pub proof fn lemma_known_kind_valid(chunk: ChunkView)
    requires
        chunk.well_formed(),
        chunk.chunk_type != ChunkType::Unknown,
    ensures
        chunk.type_code == chunk.chunk_type.tag(),
        chunk.is_critical(),
        chunk.is_public(),
        chunk.is_reserved_bit_valid(),
        chunk.is_valid() == chunk.verify_crc(),
{
    lemma_known_kind_bits(chunk.chunk_type);
}

/// A chunk whose checksum matches stops matching when one payload byte is
/// replaced by a different value and everything else is kept.
pub proof fn lemma_verify_crc_rejects_mutation(intact: ChunkView, mutated: ChunkView, i: int)
    requires
        intact.verify_crc(),
        mutated.type_code == intact.type_code,
        mutated.crc == intact.crc,
        0 <= i < intact.data.len(),
        mutated.data.len() == intact.data.len(),
        mutated.data[i] != intact.data[i],
        forall|j: int| 0 <= j < intact.data.len() && j != i ==> mutated.data[j] == intact.data[j],
    ensures
        !mutated.verify_crc(),
        !mutated.is_valid(),
{
    assert(mutated.data =~= intact.data.update(i, mutated.data[i]));
    lemma_crc32_single_byte_change(intact.type_code, intact.data, i, mutated.data[i]);
}

} // verus!
