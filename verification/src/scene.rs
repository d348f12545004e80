//! The splat store: the packed buffer of a point cloud and the texture
//! derived from it.

use vstd::prelude::*;
use crate::error::{FormatError, SceneError};
use crate::half::{half_pair, lemma_half_fits, pack_half_2x16};
use crate::importance::{importance_order, importances_of, writing_order};
use crate::permutation::indices_of;
use crate::ply::{body_of, header_of, read_header};
use crate::splat::{PackedSplat, Quantized, SerializedSplat, SerializedSplat2, PACKED_STRIDE};
use crate::word::{read_word, word_at, words_at};

verus! {

/// Texels in a row of the texture.
pub const TEXTURE_WIDTH: usize = 2048;

/// Words of the texture that one record takes: two texels of four lanes.
pub const LANES: usize = 8;

/// A point cloud of Gaussian splats.
pub struct Scene {
    buffer: Vec<u8>,
    tex_data: Vec<u32>,
    tex_width: usize,
    tex_height: usize,
}

/// What a store holds.
pub struct SceneView {
    /// Number of records.
    pub splat_count: nat,
    /// The packed buffer: 32 bytes a record.
    pub buffer: Seq<u8>,
    /// The texture, lane by lane; empty until generated.
    pub tex_data: Seq<u32>,
    /// Texels in a row of the texture.
    pub tex_width: nat,
    /// Rows of the texture.
    pub tex_height: nat,
}

impl SceneView {
    /// The buffer holds exactly `splat_count` records.
    pub open spec fn wf(self) -> bool {
        self.buffer.len() == PACKED_STRIDE * self.splat_count
    }
}

/// Rows of the texture of `count` records: two texels a record, 2048 texels a
/// row, the last row filled up.
pub open spec fn texture_height(count: nat) -> nat {
    ((2 * count + 2047) / 2048) as nat
}

/// Words of the texture of `count` records: four lanes a texel.
pub open spec fn texture_len(count: nat) -> nat {
    TEXTURE_WIDTH as nat * texture_height(count) * 4
}

/// Lane `k` of the eight lanes of record `i`: the position in lanes 0 to 2,
/// the four color bytes as one word in lane 3, the six covariance entries as
/// three pairs of halves in lanes 4 to 6, and zero in lane 7.
pub open spec fn lane(buffer: Seq<u8>, covariance: Seq<[u32; 6]>, i: int, k: int) -> u32 {
    if k < 3 {
        word_at(buffer, PACKED_STRIDE * i + 4 * k)
    } else if k == 3 {
        word_at(buffer, PACKED_STRIDE * i + 24)
    } else if k < 7 {
        half_pair(covariance[i]@[2 * (k - 4)], covariance[i]@[2 * (k - 4) + 1]) as u32
    } else {
        0
    }
}

/// The texture of a packed buffer of `count` records with these covariance
/// entries: the lanes of the records one after another, then zeros.
pub open spec fn texture_of(buffer: Seq<u8>, covariance: Seq<[u32; 6]>, count: nat) -> Seq<u32> {
    Seq::new(
        texture_len(count),
        |t: int|
            if t < LANES * count {
                lane(buffer, covariance, t / 8, t % 8)
            } else {
                0u32
            },
    )
}

/// What regenerating the texture of `before` with `covariance` gives: nothing
/// new for an empty store or for covariance entries that are not one per
/// record, otherwise the same store with the texture of its buffer.
pub open spec fn regenerated(before: SceneView, covariance: Seq<[u32; 6]>) -> SceneView {
    if before.splat_count == 0 || covariance.len() != before.splat_count {
        before
    } else {
        SceneView {
            tex_data: texture_of(before.buffer, covariance, before.splat_count),
            tex_width: TEXTURE_WIDTH as nat,
            tex_height: texture_height(before.splat_count),
            ..before
        }
    }
}

/// The packed record of a decoded record and its quantized values.
pub open spec fn packed(position: [u32; 3], quantized: Quantized) -> PackedSplat {
    PackedSplat {
        position,
        scale: quantized.scale,
        color: quantized.color,
        rotation: quantized.rotation,
    }
}

/// `buffer` holds the records `rows` in the writing order of `keys`: row `r`
/// holds the record that stands at place `r` of that order.
pub open spec fn holds_in_writing_order(
    buffer: Seq<u8>,
    rows: Seq<PackedSplat>,
    keys: Seq<int>,
) -> bool {
    &&& buffer.len() == PACKED_STRIDE * rows.len()
    &&& forall|r: int|
        0 <= r < rows.len() ==> (#[trigger] rows[writing_order(keys)[r]]).stands_at(buffer, r)
}

/// Packs `rows` in the writing order of `keys`.
fn pack_rows(rows: &Vec<PackedSplat>, keys: &Vec<u32>) -> (buffer: Vec<u8>)
    requires
        rows.len() == keys.len(),
        PACKED_STRIDE * rows.len() <= usize::MAX,
    ensures
        holds_in_writing_order(buffer@, rows@, importances_of(keys@)),
{
    let n = rows.len();
    let order = importance_order(keys);
    let ghost places = writing_order(importances_of(keys@));
    let mut buffer: Vec<u8> = Vec::new();
    let mut r: usize = 0;
    while r < n
        invariant
            r <= n,
            n == rows.len(),
            order.len() == n,
            places == indices_of(order@),
            forall|p: int| 0 <= p < n ==> 0 <= #[trigger] places[p] < n,
            buffer.len() == PACKED_STRIDE * r,
            forall|p: int| 0 <= p < r ==> (#[trigger] rows@[places[p]]).stands_at(buffer@, p),
        decreases n - r,
    {
        let ghost before = buffer@;
        let i = order[r];
        assert(i == places[r as int]);
        rows[i].push_to(&mut buffer, r);
        proof {
            assert forall|p: int| 0 <= p < r implies (#[trigger] rows@[places[p]]).stands_at(
                buffer@,
                p,
            ) by {
                let row = rows@[places[p]];
                assert(row.stands_at(before, p));
                lemma_row_survives(row, before, buffer@, p);
            }
        }
        r += 1;
    }
    buffer
}

/// A row of a buffer stays what it was when bytes are appended.
proof fn lemma_row_survives(row: PackedSplat, before: Seq<u8>, after: Seq<u8>, p: int)
    requires
        0 <= p,
        PACKED_STRIDE * p + PACKED_STRIDE <= before.len() <= after.len(),
        after.subrange(0, before.len() as int) == before,
        row.stands_at(before, p),
    ensures
        row.stands_at(after, p),
{
    let at = PACKED_STRIDE * p;
    assert forall|k: int| 0 <= k < before.len() implies after[k] == before[k] by {
        assert(after.subrange(0, before.len() as int)[k] == after[k]);
    }
    assert(row.position@ =~= words_at(after, at, 3));
    assert(row.scale@ =~= words_at(after, at + 12, 3));
    assert(row.color@ =~= after.subrange(at + 24, at + 28));
    assert(row.rotation@ =~= after.subrange(at + 28, at + 32));
}

/// The packed records of decoded records of the layout with a normal.
pub open spec fn rows_of(splats: Seq<(SerializedSplat, Quantized)>) -> Seq<PackedSplat> {
    splats.map_values(|s: (SerializedSplat, Quantized)| packed(s.0.position, s.1))
}

/// The importance keys of decoded records of the layout with a normal.
pub open spec fn keys_of(splats: Seq<(SerializedSplat, Quantized)>) -> Seq<int> {
    splats.map_values(|s: (SerializedSplat, Quantized)| s.1.importance as int)
}

/// The packed records of decoded records of the layout without a normal.
pub open spec fn rows_of_no_normal(splats: Seq<(SerializedSplat2, Quantized)>) -> Seq<
    PackedSplat,
> {
    splats.map_values(|s: (SerializedSplat2, Quantized)| packed(s.0.position, s.1))
}

/// The importance keys of decoded records of the layout without a normal.
pub open spec fn keys_of_no_normal(splats: Seq<(SerializedSplat2, Quantized)>) -> Seq<int> {
    splats.map_values(|s: (SerializedSplat2, Quantized)| s.1.importance as int)
}

/// What loading `rows` with importance keys `keys` makes of a store: the
/// records in writing order, the texture as it was.
pub open spec fn loaded(
    before: SceneView,
    rows: Seq<PackedSplat>,
    keys: Seq<int>,
    after: SceneView,
) -> bool {
    &&& after.wf()
    &&& after.splat_count == rows.len()
    &&& holds_in_writing_order(after.buffer, rows, keys)
    &&& after.tex_data == before.tex_data
    &&& after.tex_width == before.tex_width
    &&& after.tex_height == before.tex_height
}

/// A store loaded with the records of a header-and-body input holds as many
/// records as the header declares, in 32 bytes each.
pub proof fn lemma_load_keeps_declared_count(
    bytes: Seq<u8>,
    stride: int,
    rows: Seq<PackedSplat>,
    keys: Seq<int>,
    before: SceneView,
    after: SceneView,
)
    requires
        body_of(bytes, stride) is Ok,
        rows.len() == body_of(bytes, stride).unwrap().1,
        loaded(before, rows, keys, after),
    ensures
        header_of(bytes) is Ok,
        after.splat_count == header_of(bytes).unwrap().1,
        after.buffer.len() == 32 * after.splat_count,
{
}

/// Regenerating the texture a second time over the same buffer changes
/// nothing.
pub proof fn lemma_regeneration_is_idempotent(before: SceneView, covariance: Seq<[u32; 6]>)
    ensures
        regenerated(regenerated(before, covariance), covariance) == regenerated(before, covariance),
{
}

/// Regenerating the texture of a store without records changes nothing.
pub proof fn lemma_empty_store_keeps_texture(before: SceneView, covariance: Seq<[u32; 6]>)
    requires
        before.splat_count == 0,
    ensures
        regenerated(before, covariance) == before,
{
}

/// Writes the eight lanes of record `i` into the texture and leaves every
/// other lane as it is.
fn write_lanes(tex: &mut Vec<u32>, buffer: &Vec<u8>, covariance: &Vec<[u32; 6]>, i: usize)
    requires
        PACKED_STRIDE * i + PACKED_STRIDE <= buffer.len(),
        i < covariance.len(),
        LANES * i + LANES <= old(tex).len(),
    ensures
        final(tex).len() == old(tex).len(),
        forall|k: int|
            0 <= k < LANES ==> final(tex)@[LANES * i + k] == #[trigger] lane(
                buffer@,
                covariance@,
                i as int,
                k,
            ),
        forall|t: int|
            0 <= t < old(tex).len() && !(LANES * i <= t < LANES * i + LANES) ==> final(tex)@[t]
                == old(tex)@[t],
{
    let at = PACKED_STRIDE * i;
    let base = LANES * i;
    let c = &covariance[i];
    proof {
        lemma_half_fits(c@[0]);
        lemma_half_fits(c@[1]);
        lemma_half_fits(c@[2]);
        lemma_half_fits(c@[3]);
        lemma_half_fits(c@[4]);
        lemma_half_fits(c@[5]);
    }
    tex.set(base, read_word(buffer.as_slice(), at));
    tex.set(base + 1, read_word(buffer.as_slice(), at + 4));
    tex.set(base + 2, read_word(buffer.as_slice(), at + 8));
    tex.set(base + 3, read_word(buffer.as_slice(), at + 24));
    tex.set(base + 4, pack_half_2x16(c[0], c[1]));
    tex.set(base + 5, pack_half_2x16(c[2], c[3]));
    tex.set(base + 6, pack_half_2x16(c[4], c[5]));
    tex.set(base + 7, 0);
}

impl View for Scene {
    type V = SceneView;

    closed spec fn view(&self) -> SceneView {
        SceneView {
            splat_count: (self.buffer@.len() / PACKED_STRIDE as nat) as nat,
            buffer: self.buffer@,
            tex_data: self.tex_data@,
            tex_width: self.tex_width as nat,
            tex_height: self.tex_height as nat,
        }
    }
}

impl Scene {
    #[verifier::type_invariant]
    spec fn packed_whole(self) -> bool {
        self.buffer@.len() % PACKED_STRIDE as nat == 0
    }

    /// A store without records and without a texture.
    pub fn new() -> (scene: Scene)
        ensures
            scene@.wf(),
            scene@.splat_count == 0,
            scene@.buffer == Seq::<u8>::empty(),
            scene@.tex_data == Seq::<u32>::empty(),
            scene@.tex_width == 0,
            scene@.tex_height == 0,
    {
        Scene { buffer: Vec::new(), tex_data: Vec::new(), tex_width: 0, tex_height: 0 }
    }

    /// Number of records.
    pub fn splat_count(&self) -> (count: usize)
        ensures
            count == self@.splat_count,
            self@.wf(),
    {
        proof {
            use_type_invariant(self);
        }
        self.buffer.len() / PACKED_STRIDE
    }

    /// The packed buffer.
    pub fn buffer(&self) -> (buffer: &Vec<u8>)
        ensures
            buffer@ == self@.buffer,
            self@.wf(),
    {
        proof {
            use_type_invariant(self);
        }
        &self.buffer
    }

    /// The texture, lane by lane.
    pub fn tex_data(&self) -> (tex_data: &Vec<u32>)
        ensures
            tex_data@ == self@.tex_data,
    {
        &self.tex_data
    }

    /// Texels in a row of the texture.
    pub fn tex_width(&self) -> (width: usize)
        ensures
            width == self@.tex_width,
    {
        self.tex_width
    }

    /// Rows of the texture.
    pub fn tex_height(&self) -> (height: usize)
        ensures
            height == self@.tex_height,
    {
        self.tex_height
    }

    /// The record in row `row`, or nothing behind the last row.
    pub fn splat(&self, row: usize) -> (splat: Option<PackedSplat>)
        ensures
            self@.wf(),
            match splat {
                Some(s) => row < self@.splat_count && s.stands_at(self@.buffer, row as int),
                None => row >= self@.splat_count,
            },
    {
        proof {
            use_type_invariant(self);
        }
        if row < self.buffer.len() / PACKED_STRIDE {
            Some(PackedSplat::read(self.buffer.as_slice(), row))
        } else {
            None
        }
    }
    /// Reads the header of a header-and-body input: the offset at which the
    /// body starts and the declared number of records.
    pub fn parse_file_header(bytes: &[u8]) -> (header: Result<(usize, usize), SceneError>)
        ensures
            match header {
                Ok((size, count)) => header_of(bytes@) == Ok::<(int, nat), FormatError>(
                    (size as int, count as nat),
                ),
                Err(e) => exists|f: FormatError|
                    e == SceneError::Format(f) && header_of(bytes@) == Err::<
                        (int, nat),
                        FormatError,
                    >(f),
            },
    {
        match read_header(bytes) {
            Ok(found) => Ok(found),
            Err(f) => Err(SceneError::Format(f)),
        }
    }

    /// Replaces the records of the store by the given ones, of the layout
    /// with a normal, most important first.
    pub fn load(&mut self, splats: &Vec<(SerializedSplat, Quantized)>)
        requires
            PACKED_STRIDE * splats.len() <= usize::MAX,
        ensures
            loaded(old(self)@, rows_of(splats@), keys_of(splats@), final(self)@),
    {
        let n = splats.len();
        let mut rows: Vec<PackedSplat> = Vec::new();
        let mut keys: Vec<u32> = Vec::new();
        let mut i: usize = 0;
        while i < n
            invariant
                i <= n,
                n == splats.len(),
                rows.len() == i,
                keys.len() == i,
                forall|k: int| 0 <= k < i ==> #[trigger] rows@[k] == rows_of(splats@)[k],
                forall|k: int| 0 <= k < i ==> (#[trigger] keys@[k]) as int == keys_of(splats@)[k],
            decreases n - i,
        {
            let q = splats[i].1;
            rows.push(
                PackedSplat {
                    position: splats[i].0.position,
                    scale: q.scale,
                    color: q.color,
                    rotation: q.rotation,
                },
            );
            keys.push(q.importance);
            i += 1;
        }
        assert(rows@ =~= rows_of(splats@));
        assert(importances_of(keys@) =~= keys_of(splats@));
        self.buffer = pack_rows(&rows, &keys);
    }

    /// Replaces the records of the store by the given ones, of the layout
    /// without a normal, most important first.
    pub fn load_no_normal(&mut self, splats: &Vec<(SerializedSplat2, Quantized)>)
        requires
            PACKED_STRIDE * splats.len() <= usize::MAX,
        ensures
            loaded(
                old(self)@,
                rows_of_no_normal(splats@),
                keys_of_no_normal(splats@),
                final(self)@,
            ),
    {
        let n = splats.len();
        let mut rows: Vec<PackedSplat> = Vec::new();
        let mut keys: Vec<u32> = Vec::new();
        let mut i: usize = 0;
        while i < n
            invariant
                i <= n,
                n == splats.len(),
                rows.len() == i,
                keys.len() == i,
                forall|k: int| 0 <= k < i ==> #[trigger] rows@[k] == rows_of_no_normal(splats@)[k],
                forall|k: int|
                    0 <= k < i ==> (#[trigger] keys@[k]) as int == keys_of_no_normal(splats@)[k],
            decreases n - i,
        {
            let q = splats[i].1;
            rows.push(
                PackedSplat {
                    position: splats[i].0.position,
                    scale: q.scale,
                    color: q.color,
                    rotation: q.rotation,
                },
            );
            keys.push(q.importance);
            i += 1;
        }
        assert(rows@ =~= rows_of_no_normal(splats@));
        assert(importances_of(keys@) =~= keys_of_no_normal(splats@));
        self.buffer = pack_rows(&rows, &keys);
    }

    /// Takes `buffer` as the packed buffer of the store, as it is: no header,
    /// no reordering. A buffer whose length is no multiple of 32 is rejected
    /// and leaves the store as it was.
    pub fn load_buffer(&mut self, buffer: Vec<u8>) -> (done: Result<(), SceneError>)
        ensures
            match done {
                Ok(()) => {
                    &&& buffer.len() % 32 == 0
                    &&& final(self)@.wf()
                    &&& final(self)@.splat_count == buffer.len() / 32
                    &&& final(self)@.buffer == buffer@
                    &&& final(self)@.tex_data == old(self)@.tex_data
                    &&& final(self)@.tex_width == old(self)@.tex_width
                    &&& final(self)@.tex_height == old(self)@.tex_height
                },
                Err(e) => e == SceneError::Size && buffer.len() % 32 != 0 && final(self)@ == old(
                    self,
                )@,
            },
    {
        if buffer.len() % PACKED_STRIDE != 0 {
            return Err(SceneError::Size);
        }
        self.buffer = buffer;
        Ok(())
    }

    /// Rebuilds the texture from the packed buffer and the covariance entries
    /// of its records, six a record. Changes nothing for a store without
    /// records, nor where the entries are not one set per record; says
    /// whether the texture was rebuilt.
    pub fn generate_texture(&mut self, covariance: &Vec<[u32; 6]>) -> (rebuilt: bool)
        ensures
            final(self)@ == regenerated(old(self)@, covariance@),
            rebuilt == (old(self)@.splat_count > 0 && covariance.len() == old(self)@.splat_count),
    {
        proof {
            use_type_invariant(&*self);
        }
        let count = self.buffer.len() / PACKED_STRIDE;
        if count == 0 || covariance.len() != count {
            return false;
        }
        let height = (2 * count + 2047) / 2048;
        let len = TEXTURE_WIDTH * height * 4;
        let mut tex: Vec<u32> = vec![0u32; len];
        let mut i: usize = 0;
        while i < count
            invariant
                i <= count,
                count == self.buffer.len() / PACKED_STRIDE,
                self.buffer.len() % PACKED_STRIDE == 0,
                covariance.len() == count,
                height == texture_height(count as nat),
                len == texture_len(count as nat),
                tex.len() == len,
                LANES * count <= len,
                forall|t: int|
                    0 <= t < LANES * i ==> #[trigger] tex@[t] == lane(
                        self.buffer@,
                        covariance@,
                        t / 8,
                        t % 8,
                    ),
                forall|t: int| LANES * i <= t < len ==> #[trigger] tex@[t] == 0,
            decreases count - i,
        {
            let ghost before = tex@;
            write_lanes(&mut tex, &self.buffer, covariance, i);
            proof {
                assert forall|t: int| 0 <= t < LANES * (i + 1) implies #[trigger] tex@[t] == lane(
                    self.buffer@,
                    covariance@,
                    t / 8,
                    t % 8,
                ) by {
                    if t < LANES * i {
                        assert(tex@[t] == before[t]);
                    } else {
                        assert(t / 8 == i && t == LANES * i + t % 8);
                    }
                }
                assert forall|t: int| LANES * (i + 1) <= t < len implies #[trigger] tex@[t]
                    == 0 by {
                    assert(tex@[t] == before[t]);
                }
            }
            i += 1;
        }
        assert(tex@ =~= texture_of(self.buffer@, covariance@, count as nat));
        self.tex_data = tex;
        self.tex_width = TEXTURE_WIDTH;
        self.tex_height = height;
        true
    }
}

} // verus!
