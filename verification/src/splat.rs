//! The records of a point cloud: as they come from a decoder, and as the
//! store packs them.
//!
//! A single-precision field is held as its bit pattern.

use vstd::prelude::*;
use crate::error::FormatError;
use crate::word::{push_word, read_word, read_words, word_at, words_at};

verus! {

/// Bytes of a record of the layout with a normal: 62 words.
pub const SPLAT_STRIDE: usize = 248;

/// Bytes of a record of the layout without a normal: 59 words.
pub const SPLAT2_STRIDE: usize = 236;

/// Bytes of a packed record.
pub const PACKED_STRIDE: usize = 32;

/// A decoded record of the layout with a normal.
#[derive(Clone, Copy, Debug)]
pub struct SerializedSplat {
    /// Center of the ellipsoid.
    pub position: [u32; 3],
    /// Normal; not used.
    pub n: [u32; 3],
    /// Base color (3 coefficients) and 45 spherical-harmonics coefficients.
    pub color: [u32; 48],
    /// Opacity, as a logit.
    pub alpha: u32,
    /// Scale, as logarithms.
    pub scale: [u32; 3],
    /// Rotation quaternion, not necessarily of length 1.
    pub rotation: [u32; 4],
}

/// A decoded record of the layout without a normal.
#[derive(Clone, Copy, Debug)]
pub struct SerializedSplat2 {
    /// Center of the ellipsoid.
    pub position: [u32; 3],
    /// Scale, as logarithms.
    pub scale: [u32; 3],
    /// Rotation quaternion, not necessarily of length 1.
    pub rotation: [u32; 4],
    /// Opacity, as a logit.
    pub alpha: u32,
    /// Base color (3 coefficients) and 45 spherical-harmonics coefficients.
    pub color: [u32; 48],
}

impl SerializedSplat {
    /// The record is what the 248 bytes at `at` hold, field after field.
    pub open spec fn decodes(self, bytes: Seq<u8>, at: int) -> bool {
        &&& self.position@ == words_at(bytes, at, 3)
        &&& self.n@ == words_at(bytes, at + 12, 3)
        &&& self.color@ == words_at(bytes, at + 24, 48)
        &&& self.alpha == word_at(bytes, at + 216)
        &&& self.scale@ == words_at(bytes, at + 220, 3)
        &&& self.rotation@ == words_at(bytes, at + 232, 4)
    }

    /// Decodes the record at `at`, if the input holds one there.
    pub fn decode(bytes: &[u8], at: usize) -> (splat: Option<SerializedSplat>)
        ensures
            match splat {
                Some(s) => at + SPLAT_STRIDE <= bytes.len() && s.decodes(bytes@, at as int),
                None => at + SPLAT_STRIDE > bytes.len(),
            },
    {
        if !body_fits(bytes.len(), at, 1, SPLAT_STRIDE) {
            return None;
        }
        Some(Self::decode_at(bytes, at))
    }

    fn decode_at(bytes: &[u8], at: usize) -> (splat: SerializedSplat)
        requires
            at + SPLAT_STRIDE <= bytes.len(),
        ensures
            splat.decodes(bytes@, at as int),
    {
        SerializedSplat {
            position: read_words::<3>(bytes, at),
            n: read_words::<3>(bytes, at + 12),
            color: read_words::<48>(bytes, at + 24),
            alpha: read_word(bytes, at + 216),
            scale: read_words::<3>(bytes, at + 220),
            rotation: read_words::<4>(bytes, at + 232),
        }
    }

    /// Decodes the `count` records of a body that starts at `offset`. Bytes
    /// behind the last record are ignored; a body too short for `count`
    /// records is rejected.
    pub fn decode_all(bytes: &[u8], offset: usize, count: usize) -> (splats: Result<
        Vec<SerializedSplat>,
        FormatError,
    >)
        ensures
            match splats {
                Ok(v) => {
                    &&& offset + SPLAT_STRIDE * count <= bytes.len()
                    &&& v.len() == count
                    &&& forall|k: int|
                        0 <= k < count ==> (#[trigger] v[k]).decodes(
                            bytes@,
                            offset + SPLAT_STRIDE * k,
                        )
                },
                Err(e) => e == FormatError::BodyLength && offset + SPLAT_STRIDE * count
                    > bytes.len(),
            },
    {
        if !body_fits(bytes.len(), offset, count, SPLAT_STRIDE) {
            return Err(FormatError::BodyLength);
        }
        let mut v: Vec<SerializedSplat> = Vec::new();
        let mut k: usize = 0;
        while k < count
            invariant
                k <= count,
                offset + SPLAT_STRIDE * count <= bytes.len(),
                v.len() == k,
                forall|j: int|
                    0 <= j < k ==> (#[trigger] v[j]).decodes(bytes@, offset + SPLAT_STRIDE * j),
            decreases count - k,
        {
            v.push(SerializedSplat::decode_at(bytes, offset + SPLAT_STRIDE * k));
            k += 1;
        }
        Ok(v)
    }
}

impl SerializedSplat2 {
    /// The record is what the 236 bytes at `at` hold, field after field.
    pub open spec fn decodes(self, bytes: Seq<u8>, at: int) -> bool {
        &&& self.position@ == words_at(bytes, at, 3)
        &&& self.scale@ == words_at(bytes, at + 12, 3)
        &&& self.rotation@ == words_at(bytes, at + 24, 4)
        &&& self.alpha == word_at(bytes, at + 40)
        &&& self.color@ == words_at(bytes, at + 44, 48)
    }

    /// Decodes the record at `at`, if the input holds one there.
    pub fn decode(bytes: &[u8], at: usize) -> (splat: Option<SerializedSplat2>)
        ensures
            match splat {
                Some(s) => at + SPLAT2_STRIDE <= bytes.len() && s.decodes(bytes@, at as int),
                None => at + SPLAT2_STRIDE > bytes.len(),
            },
    {
        if !body_fits(bytes.len(), at, 1, SPLAT2_STRIDE) {
            return None;
        }
        Some(Self::decode_at(bytes, at))
    }

    fn decode_at(bytes: &[u8], at: usize) -> (splat: SerializedSplat2)
        requires
            at + SPLAT2_STRIDE <= bytes.len(),
        ensures
            splat.decodes(bytes@, at as int),
    {
        SerializedSplat2 {
            position: read_words::<3>(bytes, at),
            scale: read_words::<3>(bytes, at + 12),
            rotation: read_words::<4>(bytes, at + 24),
            alpha: read_word(bytes, at + 40),
            color: read_words::<48>(bytes, at + 44),
        }
    }

    /// Decodes the `count` records of a body that starts at `offset`. Bytes
    /// behind the last record are ignored; a body too short for `count`
    /// records is rejected.
    pub fn decode_all(bytes: &[u8], offset: usize, count: usize) -> (splats: Result<
        Vec<SerializedSplat2>,
        FormatError,
    >)
        ensures
            match splats {
                Ok(v) => {
                    &&& offset + SPLAT2_STRIDE * count <= bytes.len()
                    &&& v.len() == count
                    &&& forall|k: int|
                        0 <= k < count ==> (#[trigger] v[k]).decodes(
                            bytes@,
                            offset + SPLAT2_STRIDE * k,
                        )
                },
                Err(e) => e == FormatError::BodyLength && offset + SPLAT2_STRIDE * count
                    > bytes.len(),
            },
    {
        if !body_fits(bytes.len(), offset, count, SPLAT2_STRIDE) {
            return Err(FormatError::BodyLength);
        }
        let mut v: Vec<SerializedSplat2> = Vec::new();
        let mut k: usize = 0;
        while k < count
            invariant
                k <= count,
                offset + SPLAT2_STRIDE * count <= bytes.len(),
                v.len() == k,
                forall|j: int|
                    0 <= j < k ==> (#[trigger] v[j]).decodes(bytes@, offset + SPLAT2_STRIDE * j),
            decreases count - k,
        {
            v.push(SerializedSplat2::decode_at(bytes, offset + SPLAT2_STRIDE * k));
            k += 1;
        }
        Ok(v)
    }
}

/// Whether `count` records of `stride` bytes, from `offset` on, lie within
/// `len` bytes.
fn body_fits(len: usize, offset: usize, count: usize, stride: usize) -> (fits: bool)
    ensures
        fits == (offset + stride * count <= len),
{
    match stride.checked_mul(count) {
        Some(body) => match offset.checked_add(body) {
            Some(end) => end <= len,
            None => false,
        },
        None => false,
    }
}

/// What a record becomes through the arithmetic on its fields: the values
/// that the store packs, and the key by which it orders the records.
#[derive(Clone, Copy, Debug, PartialEq, Eq)]
pub struct Quantized {
    /// Scale, each component exponentiated.
    pub scale: [u32; 3],
    /// Red, green and blue from the base color, and opacity, each in 0..=255.
    pub color: [u8; 4],
    /// The normalized quaternion, each component mapped from -1..=1 to
    /// 0..=255.
    pub rotation: [u8; 4],
    /// Importance key: the larger, the more important. Its order is the
    /// order of the record's volume times its opacity.
    pub importance: u32,
}

/// A record as the store packs it: 32 bytes.
#[derive(Clone, Copy, Debug, PartialEq, Eq)]
pub struct PackedSplat {
    /// Center of the ellipsoid.
    pub position: [u32; 3],
    /// Scale.
    pub scale: [u32; 3],
    /// Red, green, blue and opacity.
    pub color: [u8; 4],
    /// Rotation quaternion, each component mapped to 0..=255.
    pub rotation: [u8; 4],
}

impl PackedSplat {
    /// The record is what row `row` of a packed buffer holds.
    pub open spec fn stands_at(self, buffer: Seq<u8>, row: int) -> bool {
        &&& self.position@ == words_at(buffer, PACKED_STRIDE * row, 3)
        &&& self.scale@ == words_at(buffer, PACKED_STRIDE * row + 12, 3)
        &&& self.color@ == buffer.subrange(PACKED_STRIDE * row + 24, PACKED_STRIDE * row + 28)
        &&& self.rotation@ == buffer.subrange(PACKED_STRIDE * row + 28, PACKED_STRIDE * row + 32)
    }

    /// A row holds one record only: what is read back from a row is, bit for
    /// bit, what was written to it.
    pub proof fn lemma_row_holds_one_record(self, other: PackedSplat, buffer: Seq<u8>, row: int)
        requires
            self.stands_at(buffer, row),
            other.stands_at(buffer, row),
        ensures
            self == other,
    {
        assert(self.position =~= other.position);
        assert(self.scale =~= other.scale);
        assert(self.color =~= other.color);
        assert(self.rotation =~= other.rotation);
    }

    /// Appends the record to a packed buffer of `row` rows, as its next row.
    pub(crate) fn push_to(&self, buffer: &mut Vec<u8>, row: usize)
        requires
            old(buffer).len() == PACKED_STRIDE * row,
        ensures
            final(buffer).len() == old(buffer).len() + PACKED_STRIDE,
            final(buffer)@.subrange(0, old(buffer).len() as int) == old(buffer)@,
            self.stands_at(final(buffer)@, row as int),
    {
        let ghost at = buffer.len() as int;
        push_word(buffer, self.position[0]);
        push_word(buffer, self.position[1]);
        push_word(buffer, self.position[2]);
        assert(self.position@ =~= words_at(buffer@, at, 3));
        let ghost positioned = buffer@;
        push_word(buffer, self.scale[0]);
        push_word(buffer, self.scale[1]);
        push_word(buffer, self.scale[2]);
        assert(self.scale@ =~= words_at(buffer@, at + 12, 3));
        let ghost scaled = buffer@;
        buffer.push(self.color[0]);
        buffer.push(self.color[1]);
        buffer.push(self.color[2]);
        buffer.push(self.color[3]);
        buffer.push(self.rotation[0]);
        buffer.push(self.rotation[1]);
        buffer.push(self.rotation[2]);
        buffer.push(self.rotation[3]);
        assert(buffer@.subrange(0, at + 12) =~= positioned);
        assert(buffer@.subrange(0, at + 24) =~= scaled);
        assert(self.position@ =~= words_at(buffer@, at, 3));
        assert(self.scale@ =~= words_at(buffer@, at + 12, 3));
        assert(self.color@ =~= buffer@.subrange(at + 24, at + 28));
        assert(self.rotation@ =~= buffer@.subrange(at + 28, at + 32));
        assert(buffer@.subrange(0, at) =~= old(buffer)@);
    }

    /// Reads the record that row `row` of a packed buffer holds.
    pub(crate) fn read(buffer: &[u8], row: usize) -> (splat: PackedSplat)
        requires
            PACKED_STRIDE * row + PACKED_STRIDE <= buffer.len(),
        ensures
            splat.stands_at(buffer@, row as int),
    {
        let at = PACKED_STRIDE * row;
        let mut color: [u8; 4] = [0u8;4];
        let mut rotation: [u8; 4] = [0u8;4];
        let mut k: usize = 0;
        while k < 4
            invariant
                k <= 4,
                at + 32 <= buffer.len(),
                forall|j: int| 0 <= j < k ==> color@[j] == buffer@[at + 24 + j],
                forall|j: int| 0 <= j < k ==> rotation@[j] == buffer@[at + 28 + j],
            decreases 4 - k,
        {
            color[k] = buffer[at + 24 + k];
            rotation[k] = buffer[at + 28 + k];
            k += 1;
        }
        assert(color@ =~= buffer@.subrange(at + 24, at + 28));
        assert(rotation@ =~= buffer@.subrange(at + 28, at + 32));
        PackedSplat {
            position: read_words::<3>(buffer, at),
            scale: read_words::<3>(buffer, at + 12),
            color,
            rotation,
        }
    }
}

} // verus!
