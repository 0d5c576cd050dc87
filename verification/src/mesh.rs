//! Indexed triangle meshes and their binary wire format.
//!
//! Every floating-point quantity of a mesh (vertex coordinates, colour channels) is held
//! as the IEEE-754 binary32 bit pattern of the value, so that the library can move,
//! copy and encode it exactly without doing float arithmetic.
use vstd::prelude::*;

verus! {

/// Wire format header magic: the ASCII letters "MESH" read as a big-endian word.
pub const MESH_MAGIC: u32 = 0x4D45_5348;

/// Wire format version. Version 2 carries per-vertex colours.
pub const MESH_VERSION: u32 = 2;

/// Red channel of the fallback vertex colour (linear space), as binary32 bits.
pub const DEFAULT_COLOR_R: u32 = 0x3e82_2039;

/// Green channel of the fallback vertex colour (linear space), as binary32 bits.
pub const DEFAULT_COLOR_G: u32 = 0x3ee9_aeb5;

/// Blue channel of the fallback vertex colour (linear space), as binary32 bits.
pub const DEFAULT_COLOR_B: u32 = 0x3f70_4db5;

/// The fallback vertex colour for meshes without colour information: the sRGB colour
/// `0x8ab4f8` converted to linear space, channel by channel as binary32 bits.
pub fn default_color() -> (c: [u32; 3])
    ensures
        c@ == spec_default_color(),
{
    [DEFAULT_COLOR_R, DEFAULT_COLOR_G, DEFAULT_COLOR_B]
}

pub open spec fn spec_default_color() -> Seq<u32> {
    seq![DEFAULT_COLOR_R, DEFAULT_COLOR_G, DEFAULT_COLOR_B]
}

/// Byte `k` (0 = least significant) of `x`.
pub open spec fn le_byte(x: u32, k: int) -> u8 {
    if k == 0 {
        (x & 0xff) as u8
    } else if k == 1 {
        ((x >> 8u32) & 0xff) as u8
    } else if k == 2 {
        ((x >> 16u32) & 0xff) as u8
    } else {
        ((x >> 24u32) & 0xff) as u8
    }
}

/// The four little-endian bytes of `x`.
pub open spec fn le4(x: u32) -> Seq<u8> {
    seq![le_byte(x, 0), le_byte(x, 1), le_byte(x, 2), le_byte(x, 3)]
}

/// The little-endian encoding of a sequence of words, word after word.
pub open spec fn le_words(ws: Seq<u32>) -> Seq<u8>
    decreases ws.len(),
{
    if ws.len() == 0 {
        Seq::empty()
    } else {
        le_words(ws.drop_last()) + le4(ws.last())
    }
}

/// The word whose little-endian bytes are `b0 b1 b2 b3`.
pub open spec fn word_from_le(b0: u8, b1: u8, b2: u8, b3: u8) -> u32 {
    (b0 as u32) | ((b1 as u32) << 8u32) | ((b2 as u32) << 16u32) | ((b3 as u32) << 24u32)
}

/// The little-endian word stored at byte offset `off` of `data`.
pub open spec fn word_at(data: Seq<u8>, off: int) -> u32 {
    word_from_le(data[off], data[off + 1], data[off + 2], data[off + 3])
}

/// Decoding the four little-endian bytes of a word gives the word back.
pub proof fn lemma_le4_roundtrip(x: u32)
    ensures
        word_from_le(le_byte(x, 0), le_byte(x, 1), le_byte(x, 2), le_byte(x, 3)) == x,
{
    assert(((x & 0xff) as u8) as u32 | (((((x >> 8u32) & 0xff) as u8) as u32) << 8u32) | (((((x
        >> 16u32) & 0xff) as u8) as u32) << 16u32) | (((((x >> 24u32) & 0xff) as u8) as u32)
        << 24u32) == x) by (bit_vector);
}

/// Length of the little-endian encoding of `ws`.
pub proof fn lemma_le_words_len(ws: Seq<u32>)
    ensures
        le_words(ws).len() == 4 * ws.len(),
    decreases ws.len(),
{
    if ws.len() > 0 {
        lemma_le_words_len(ws.drop_last());
    }
}

/// Byte `4 * k + r` of the encoding of `ws` is byte `r` of word `k`.
pub proof fn lemma_le_words_index(ws: Seq<u32>, k: int, r: int)
    requires
        0 <= k < ws.len(),
        0 <= r < 4,
    ensures
        le_words(ws).len() == 4 * ws.len(),
        le_words(ws)[4 * k + r] == le_byte(ws[k], r),
    decreases ws.len(),
{
    lemma_le_words_len(ws);
    if k < ws.len() - 1 {
        lemma_le_words_index(ws.drop_last(), k, r);
        lemma_le_words_len(ws.drop_last());
    }
}

/// Encoding of a concatenation is the concatenation of encodings.
pub proof fn lemma_le_words_concat(a: Seq<u32>, b: Seq<u32>)
    ensures
        le_words(a + b) == le_words(a) + le_words(b),
    decreases b.len(),
{
    if b.len() == 0 {
        assert(a + b =~= a);
        assert(le_words(b) =~= Seq::<u8>::empty());
        assert(le_words(a) + le_words(b) =~= le_words(a));
    } else {
        assert((a + b).drop_last() =~= a + b.drop_last());
        assert((a + b).last() == b.last());
        lemma_le_words_concat(a, b.drop_last());
        assert(le_words(a + b) =~= le_words(a) + le_words(b));
    }
}

/// An indexed triangle mesh.
///
/// `positions` holds `x0 y0 z0 x1 y1 z1 ...` and `colors` holds linear-space
/// `r0 g0 b0 r1 g1 b1 ...`, each entry the binary32 bit pattern of the value;
/// `indices` holds three vertex numbers per triangle.
#[derive(Debug, Clone)]
pub struct Mesh {
    pub positions: Vec<u32>,
    pub indices: Vec<u32>,
    pub colors: Vec<u32>,
}

/// The number of vertices a mesh with `n_positions` coordinates reports, as the 32-bit
/// count that the wire format carries.
pub open spec fn spec_count(n: nat) -> u32 {
    (n / 3) as u32
}

/// `n` copies of the three-channel colour `c`, channel after channel.
pub open spec fn repeat_color(c: Seq<u32>, n: nat) -> Seq<u32> {
    Seq::new(3 * n, |i: int| c[i % 3])
}

/// Indices of `other` shifted by `offset`.
pub open spec fn shift_indices(idx: Seq<u32>, offset: u32) -> Seq<u32> {
    Seq::new(idx.len(), |i: int| (idx[i] + offset) as u32)
}

/// The wire encoding of a mesh: a 16-byte header (magic, version, vertex count,
/// triangle count) followed by the positions, indices and colours, every word
/// little-endian.
pub open spec fn spec_wire_format(positions: Seq<u32>, indices: Seq<u32>, colors: Seq<u32>) -> Seq<u8> {
    le4(MESH_MAGIC) + le4(MESH_VERSION) + le4(spec_count(positions.len())) + le4(
        spec_count(indices.len()),
    ) + le_words(positions) + le_words(indices) + le_words(colors)
}

impl Mesh {
    /// An empty mesh.
    pub fn new() -> (m: Mesh)
        ensures
            m.positions@ == Seq::<u32>::empty(),
            m.indices@ == Seq::<u32>::empty(),
            m.colors@ == Seq::<u32>::empty(),
    {
        Mesh { positions: Vec::new(), indices: Vec::new(), colors: Vec::new() }
    }

    /// Number of vertices (three coordinates each), as a 32-bit count.
    pub fn vertex_count(&self) -> (n: u32)
        ensures
            n == spec_count(self.positions@.len()),
    {
        (self.positions.len() / 3) as u32
    }

    /// Number of triangles (three indices each), as a 32-bit count.
    pub fn triangle_count(&self) -> (n: u32)
        ensures
            n == spec_count(self.indices@.len()),
    {
        (self.indices.len() / 3) as u32
    }

    /// Append another mesh to this one: its positions and colours are added after
    /// ours and its indices are shifted by our vertex count.
    pub fn append(&mut self, other: &Mesh)
        requires
            old(self).positions@.len() / 3 <= u32::MAX,
            forall|i: int|
                0 <= i < other.indices@.len() ==> other.indices@[i] + old(self).positions@.len()
                    / 3 <= u32::MAX,
        ensures
            final(self).positions@ == old(self).positions@ + other.positions@,
            final(self).indices@ == old(self).indices@ + shift_indices(
                other.indices@,
                (old(self).positions@.len() / 3) as u32,
            ),
            final(self).colors@ == old(self).colors@ + other.colors@,
    {
        let offset = self.vertex_count();
        let ghost old_indices = self.indices@;
        let mut i: usize = 0;
        while i < other.indices.len()
            invariant
                i <= other.indices@.len(),
                offset == old(self).positions@.len() / 3,
                forall|j: int|
                    0 <= j < other.indices@.len() ==> other.indices@[j] + offset <= u32::MAX,
                self.indices@ == old_indices + shift_indices(other.indices@, offset).take(i as int),
                self.positions@ == old(self).positions@,
                self.colors@ == old(self).colors@,
                old_indices == old(self).indices@,
            decreases other.indices@.len() - i,
        {
            let v = other.indices[i] + offset;
            self.indices.push(v);
            i = i + 1;
            assert(shift_indices(other.indices@, offset).take(i as int) =~= shift_indices(
                other.indices@,
                offset,
            ).take(i - 1).push(v));
        }
        assert(shift_indices(other.indices@, offset).take(i as int) =~= shift_indices(
            other.indices@,
            offset,
        ));
        let mut j: usize = 0;
        while j < other.positions.len()
            invariant
                j <= other.positions@.len(),
                self.positions@ == old(self).positions@ + other.positions@.take(j as int),
                self.indices@ == old(self).indices@ + shift_indices(
                    other.indices@,
                    (old(self).positions@.len() / 3) as u32,
                ),
                self.colors@ == old(self).colors@,
            decreases other.positions@.len() - j,
        {
            self.positions.push(other.positions[j]);
            j = j + 1;
            assert(other.positions@.take(j as int) =~= other.positions@.take(j - 1).push(
                other.positions@[j - 1],
            ));
        }
        assert(other.positions@.take(j as int) =~= other.positions@);
        let mut k: usize = 0;
        while k < other.colors.len()
            invariant
                k <= other.colors@.len(),
                self.colors@ == old(self).colors@ + other.colors@.take(k as int),
                self.positions@ == old(self).positions@ + other.positions@,
                self.indices@ == old(self).indices@ + shift_indices(
                    other.indices@,
                    (old(self).positions@.len() / 3) as u32,
                ),
            decreases other.colors@.len() - k,
        {
            self.colors.push(other.colors[k]);
            k = k + 1;
            assert(other.colors@.take(k as int) =~= other.colors@.take(k - 1).push(
                other.colors@[k - 1],
            ));
        }
        assert(other.colors@.take(k as int) =~= other.colors@);
    }

    /// Replace the colour buffer by `color` repeated once per vertex.
    pub fn fill_color(&mut self, color: [u32; 3])
        ensures
            final(self).positions@ == old(self).positions@,
            final(self).indices@ == old(self).indices@,
            final(self).colors@ == repeat_color(
                color@,
                spec_count(old(self).positions@.len()) as nat,
            ),
    {
        let n = self.vertex_count();
        self.colors.clear();
        let mut v: u32 = 0;
        while v < n
            invariant
                v <= n,
                n == spec_count(self.positions@.len()),
                self.positions@ == old(self).positions@,
                self.indices@ == old(self).indices@,
                self.colors@ == repeat_color(color@, v as nat),
            decreases n - v,
        {
            self.colors.push(color[0]);
            self.colors.push(color[1]);
            self.colors.push(color[2]);
            v = v + 1;
            assert(self.colors@ =~= repeat_color(color@, v as nat));
        }
    }

    /// Encode to the binary wire format (see [`spec_wire_format`]).
    pub fn to_wire_format(&self) -> (buf: Vec<u8>)
        requires
            16 + 4 * (self.positions@.len() + self.indices@.len() + self.colors@.len())
                <= usize::MAX,
        ensures
            buf@ == spec_wire_format(self.positions@, self.indices@, self.colors@),
    {
        let mut buf: Vec<u8> = Vec::new();
        push_word(&mut buf, MESH_MAGIC);
        push_word(&mut buf, MESH_VERSION);
        push_word(&mut buf, self.vertex_count());
        push_word(&mut buf, self.triangle_count());
        push_words(&mut buf, &self.positions);
        push_words(&mut buf, &self.indices);
        push_words(&mut buf, &self.colors);
        buf
    }
}

/// Append the little-endian bytes of `x`.
pub fn push_word(buf: &mut Vec<u8>, x: u32)
    ensures
        final(buf)@ == old(buf)@ + le4(x),
{
    buf.push((x & 0xff) as u8);
    buf.push(((x >> 8u32) & 0xff) as u8);
    buf.push(((x >> 16u32) & 0xff) as u8);
    buf.push(((x >> 24u32) & 0xff) as u8);
    assert(final(buf)@ =~= old(buf)@ + le4(x));
}

/// Append the little-endian bytes of every word of `ws`, in order.
pub fn push_words(buf: &mut Vec<u8>, ws: &Vec<u32>)
    ensures
        final(buf)@ == old(buf)@ + le_words(ws@),
{
    let mut i: usize = 0;
    while i < ws.len()
        invariant
            i <= ws@.len(),
            buf@ == old(buf)@ + le_words(ws@.take(i as int)),
        decreases ws@.len() - i,
    {
        let ghost before = buf@;
        push_word(buf, ws[i]);
        i = i + 1;
        assert(ws@.take(i as int).drop_last() =~= ws@.take(i - 1));
        assert(buf@ =~= old(buf)@ + le_words(ws@.take(i as int)));
    }
    assert(ws@.take(i as int) =~= ws@);
}

/// The header of an encoded mesh decodes to the magic, the version and the two counts,
/// and every payload word decodes back to the mesh word it came from.
pub proof fn lemma_wire_format_decodes(positions: Seq<u32>, indices: Seq<u32>, colors: Seq<u32>)
    ensures
        ({
            let w = spec_wire_format(positions, indices, colors);
            let np = positions.len() as int;
            let ni = indices.len() as int;
            &&& w.len() == 16 + 4 * (np + ni + colors.len())
            &&& word_at(w, 0) == MESH_MAGIC
            &&& word_at(w, 4) == MESH_VERSION
            &&& word_at(w, 8) == spec_count(positions.len())
            &&& word_at(w, 12) == spec_count(indices.len())
            &&& forall|k: int| 0 <= k < np ==> #[trigger] word_at(w, 16 + 4 * k) == positions[k]
            &&& forall|k: int|
                0 <= k < ni ==> #[trigger] word_at(w, 16 + 4 * np + 4 * k) == indices[k]
            &&& forall|k: int|
                0 <= k < colors.len() ==> #[trigger] word_at(w, 16 + 4 * (np + ni) + 4 * k)
                    == colors[k]
        }),
{
    let w = spec_wire_format(positions, indices, colors);
    let np = positions.len() as int;
    let ni = indices.len() as int;
    let h = le4(MESH_MAGIC) + le4(MESH_VERSION) + le4(spec_count(positions.len())) + le4(
        spec_count(indices.len()),
    );
    lemma_le_words_len(positions);
    lemma_le_words_len(indices);
    lemma_le_words_len(colors);
    lemma_le4_roundtrip(MESH_MAGIC);
    lemma_le4_roundtrip(MESH_VERSION);
    lemma_le4_roundtrip(spec_count(positions.len()));
    lemma_le4_roundtrip(spec_count(indices.len()));
    assert(h.len() == 16);
    assert(w == h + le_words(positions) + le_words(indices) + le_words(colors));
    assert forall|k: int| 0 <= k < np implies #[trigger] word_at(w, 16 + 4 * k) == positions[k] by {
        lemma_le_words_index(positions, k, 0);
        lemma_le_words_index(positions, k, 1);
        lemma_le_words_index(positions, k, 2);
        lemma_le_words_index(positions, k, 3);
        lemma_le4_roundtrip(positions[k]);
    }
    assert forall|k: int| 0 <= k < ni implies #[trigger] word_at(w, 16 + 4 * np + 4 * k)
        == indices[k] by {
        lemma_le_words_index(indices, k, 0);
        lemma_le_words_index(indices, k, 1);
        lemma_le_words_index(indices, k, 2);
        lemma_le_words_index(indices, k, 3);
        lemma_le4_roundtrip(indices[k]);
    }
    assert forall|k: int| 0 <= k < colors.len() implies #[trigger] word_at(
        w,
        16 + 4 * (np + ni) + 4 * k,
    ) == colors[k] by {
        lemma_le_words_index(colors, k, 0);
        lemma_le_words_index(colors, k, 1);
        lemma_le_words_index(colors, k, 2);
        lemma_le_words_index(colors, k, 3);
        lemma_le4_roundtrip(colors[k]);
    }
}

} // verus!
