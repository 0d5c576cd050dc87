//! Binary STL decoding and vertex welding.
//!
//! Binary STL layout: an 80-byte header (ignored), a little-endian `u32` triangle
//! count, then 50 bytes per triangle: a normal (3 x binary32, ignored), three vertices
//! (3 x binary32 each) and a 2-byte attribute count (ignored).
use crate::mesh::{
    default_color, repeat_color, spec_count, spec_default_color, word_at, word_from_le, Mesh,
};
use rustc_hash::FxBuildHasher;
use std::collections::HashMap;
use vstd::prelude::*;

verus! {

/// Largest triangle count that a file may announce.
pub const MAX_STL_TRIANGLES: u32 = 50_000_000;

/// Why a byte buffer is not a usable binary STL.
#[derive(Debug, Clone, Copy, PartialEq, Eq, Structural)]
pub enum StlError {
    /// Shorter than the 80-byte header plus the 4-byte triangle count.
    TooShort,
    /// The announced triangle count exceeds [`MAX_STL_TRIANGLES`].
    TooManyTriangles { count: u32 },
    /// The buffer does not hold every announced triangle.
    Truncated { expected: usize, triangles: u32, actual: usize },
}

/// The triangle count announced by the header.
pub open spec fn stl_triangle_count(data: Seq<u8>) -> u32 {
    word_at(data, 80)
}

/// Byte length of a file that holds `n` triangles.
pub open spec fn stl_expected_len(n: u32) -> int {
    84 + 50 * n
}

/// Vertex word `k` of the file: coordinate `k % 9` of triangle `k / 9`. The three
/// vertices of a triangle start 12 bytes into its 50-byte record.
pub open spec fn stl_vertex_word(data: Seq<u8>, k: int) -> u32 {
    word_at(data, 96 + 50 * (k / 9) + 4 * (k % 9))
}

/// What decoding a binary STL gives: the error that stops it, or the vertex
/// coordinates of every triangle (nine binary32 words per triangle, in file order).
pub open spec fn spec_stl_vertex_words(data: Seq<u8>) -> Result<Seq<u32>, StlError> {
    if data.len() < 84 {
        Err(StlError::TooShort)
    } else if stl_triangle_count(data) > MAX_STL_TRIANGLES {
        Err(StlError::TooManyTriangles { count: stl_triangle_count(data) })
    } else if data.len() < stl_expected_len(stl_triangle_count(data)) {
        Err(
            StlError::Truncated {
                expected: stl_expected_len(stl_triangle_count(data)) as usize,
                triangles: stl_triangle_count(data),
                actual: data.len() as usize,
            },
        )
    } else {
        Ok(
            Seq::new(
                9 * stl_triangle_count(data) as nat,
                |k: int| stl_vertex_word(data, k),
            ),
        )
    }
}

fn read_word(data: &[u8], off: usize) -> (w: u32)
    requires
        off + 4 <= data@.len(),
    ensures
        w == word_at(data@, off as int),
{
    (data[off] as u32) | ((data[off + 1] as u32) << 8u32) | ((data[off + 2] as u32) << 16u32) | ((
    data[off + 3] as u32) << 24u32)
}

proof fn lemma_div_mod_9(t: int, r: int)
    requires
        0 <= t,
        0 <= r < 9,
    ensures
        (9 * t + r) / 9 == t,
        (9 * t + r) % 9 == r,
{
    assert((9 * t + r) / 9 == t && (9 * t + r) % 9 == r) by (nonlinear_arith)
        requires
            0 <= t,
            0 <= r < 9,
    ;
}

/// Decode the vertex coordinates of a binary STL (see [`spec_stl_vertex_words`]).
pub fn parse_stl_vertices(data: &[u8]) -> (res: Result<Vec<u32>, StlError>)
    ensures
        match res {
            Ok(words) => spec_stl_vertex_words(data@) == Ok::<Seq<u32>, StlError>(words@),
            Err(e) => spec_stl_vertex_words(data@) == Err::<Seq<u32>, StlError>(e),
        },
{
    if data.len() < 84 {
        return Err(StlError::TooShort);
    }
    let tri_count = read_word(data, 80);
    if tri_count > MAX_STL_TRIANGLES {
        return Err(StlError::TooManyTriangles { count: tri_count });
    }
    let n = tri_count as usize;
    let expected_len = 84 + n * 50;
    if data.len() < expected_len {
        return Err(StlError::Truncated { expected: expected_len, triangles: tri_count, actual: data.len() });
    }
    let mut words: Vec<u32> = Vec::new();
    let mut t: usize = 0;
    while t < n
        invariant
            t <= n,
            n == tri_count,
            tri_count == stl_triangle_count(data@),
            tri_count <= MAX_STL_TRIANGLES,
            84 + 50 * n <= data@.len(),
            words@.len() == 9 * t,
            forall|k: int| 0 <= k < 9 * t ==> #[trigger] words@[k] == stl_vertex_word(data@, k),
        decreases n - t,
    {
        let base = 96 + t * 50;
        let mut j: usize = 0;
        while j < 9
            invariant
                t < n,
                n <= MAX_STL_TRIANGLES,
                84 + 50 * n <= data@.len(),
                base == 96 + 50 * t,
                j <= 9,
                words@.len() == 9 * t + j,
                forall|k: int| 0 <= k < 9 * t + j ==> #[trigger] words@[k] == stl_vertex_word(data@, k),
            decreases 9 - j,
        {
            let w = read_word(data, base + 4 * j);
            proof {
                lemma_div_mod_9(t as int, j as int);
            }
            words.push(w);
            j = j + 1;
        }
        t = t + 1;
    }
    let ghost expected = Seq::new(9 * tri_count as nat, |k: int| stl_vertex_word(data@, k));
    assert(words@ =~= expected);
    Ok(words)
}

/// A vertex position quantized to a grid: the key under which vertices are welded.
pub type VertexKey = (i64, i64, i64);

/// The first vertex among the first `m` whose key is `key`, if any.
pub open spec fn first_with_key(keys: Seq<VertexKey>, m: nat, key: VertexKey) -> Option<nat>
    decreases m,
{
    if m == 0 {
        None
    } else {
        match first_with_key(keys, (m - 1) as nat, key) {
            Some(j) => Some(j),
            None => if keys[m - 1] == key {
                Some((m - 1) as nat)
            } else {
                None
            },
        }
    }
}

/// Welding the first `n` vertices: the positions of the distinct vertices and one index
/// per vertex. A vertex whose key was seen before takes the index of the first vertex with
/// that key; otherwise its three coordinates are appended and it takes the next index.
pub open spec fn spec_weld(words: Seq<u32>, keys: Seq<VertexKey>, n: nat) -> (Seq<u32>, Seq<u32>)
    decreases n,
{
    if n == 0 {
        (Seq::empty(), Seq::empty())
    } else {
        let (p, idx) = spec_weld(words, keys, (n - 1) as nat);
        match first_with_key(keys, (n - 1) as nat, keys[n - 1]) {
            Some(j) => (p, idx.push(idx[j as int])),
            None => (
                p + words.subrange(3 * (n - 1), (3 * n) as int),
                idx.push(spec_count(p.len())),
            ),
        }
    }
}

proof fn lemma_first_with_key(keys: Seq<VertexKey>, m: nat, key: VertexKey)
    requires
        m <= keys.len(),
    ensures
        first_with_key(keys, m, key) matches Some(j) ==> j < m && keys[j as int] == key,
        first_with_key(keys, m, key) is None ==> forall|j: int| 0 <= j < m ==> keys[j] != key,
    decreases m,
{
    if m > 0 {
        lemma_first_with_key(keys, (m - 1) as nat, key);
    }
}

/// Welding `n` vertices gives one index per vertex (so every triangle is kept) and at
/// most `n` whole vertex positions.
pub proof fn lemma_weld_shape(words: Seq<u32>, keys: Seq<VertexKey>, n: nat)
    requires
        3 * n <= words.len(),
    ensures
        spec_weld(words, keys, n).1.len() == n,
        spec_weld(words, keys, n).0.len() % 3 == 0,
        spec_weld(words, keys, n).0.len() <= 3 * n,
    decreases n,
{
    if n > 0 {
        lemma_weld_shape(words, keys, (n - 1) as nat);
    }
}

#[verifier::external_type_specification]
#[verifier::external_body]
pub struct ExFxBuildHasher(FxBuildHasher);

/// The key map that holds no key.
pub open spec fn no_keys() -> Map<VertexKey, u32> {
    Map::empty()
}

/// An `FxHashMap` from weld keys to vertex numbers.
pub type KeyMap = HashMap<VertexKey, u32, FxBuildHasher>;

/// An empty `FxHashMap` (std `HashMap` with `rustc_hash`'s hasher) with room for
/// `capacity` keys. Trusted: a new map holds no key.
#[verifier::external_body]
fn key_map_with_capacity(capacity: usize) -> (m: KeyMap)
    ensures
        m@ == no_keys(),
{
    HashMap::with_capacity_and_hasher(capacity, FxBuildHasher::default())
}

/// `HashMap::get` on an `FxHashMap`. Trusted: gives the value stored under `key`, if any.
#[verifier::external_body]
fn key_map_get(m: &KeyMap, key: &VertexKey) -> (r: Option<u32>)
    ensures
        r == (if m@.contains_key(*key) {
            Some(m@[*key])
        } else {
            None::<u32>
        }),
{
    m.get(key).copied()
}

/// `HashMap::insert` on an `FxHashMap`. Trusted: afterwards `key` maps to `value` and
/// every other key is unchanged.
#[verifier::external_body]
fn key_map_insert(m: &mut KeyMap, key: VertexKey, value: u32)
    ensures
        final(m)@ == old(m)@.insert(key, value),
{
    m.insert(key, value);
}

/// Build an indexed mesh from raw vertex coordinates (three words per vertex) and the
/// weld key of every vertex: vertices with equal keys share one position (the first one
/// seen), and every vertex gets the fallback colour.
pub fn weld_vertices(words: &[u32], keys: &[VertexKey]) -> (m: Mesh)
    requires
        words@.len() == 3 * keys@.len(),
        keys@.len() <= u32::MAX,
    ensures
        m.positions@ == spec_weld(words@, keys@, keys@.len() as nat).0,
        m.indices@ == spec_weld(words@, keys@, keys@.len() as nat).1,
        m.colors@ == repeat_color(spec_default_color(), spec_count(m.positions@.len()) as nat),
{
    let n = keys.len();
    let wl = words.len();
    let mut mesh = Mesh::new();
    let mut map = key_map_with_capacity(n / 2);
    let mut i: usize = 0;
    while i < n
        invariant
            i <= n,
            n == keys@.len(),
            n <= u32::MAX,
            words@.len() == 3 * n,
            wl == words@.len(),
            (mesh.positions@, mesh.indices@) == spec_weld(words@, keys@, i as nat),
            forall|k: VertexKey| #[trigger]
                map@.contains_key(k) <==> first_with_key(keys@, i as nat, k) is Some,
            forall|k: VertexKey| #[trigger]
                map@.contains_key(k) ==> map@[k] == mesh.indices@[first_with_key(
                    keys@,
                    i as nat,
                    k,
                )->0 as int],
        decreases n - i,
    {
        proof {
            lemma_weld_shape(words@, keys@, i as nat);
            lemma_first_with_key(keys@, i as nat, keys@[i as int]);
        }
        let key = keys[i];
        let ghost old_idx = mesh.indices@;
        let ghost old_pos = mesh.positions@;
        match key_map_get(&map, &key) {
            Some(existing) => {
                mesh.indices.push(existing);
            },
            None => {
                let idx = mesh.vertex_count();
                mesh.positions.push(words[3 * i]);
                mesh.positions.push(words[3 * i + 1]);
                mesh.positions.push(words[3 * i + 2]);
                key_map_insert(&mut map, key, idx);
                mesh.indices.push(idx);
                assert(mesh.positions@ =~= old_pos + words@.subrange(3 * i, 3 * (i + 1)));
            },
        }
        i = i + 1;
        proof {
            assert forall|k: VertexKey| #[trigger] map@.contains_key(k) <==> first_with_key(
                keys@,
                i as nat,
                k,
            ) is Some by {
                lemma_first_with_key(keys@, (i - 1) as nat, k);
            }
            assert forall|k: VertexKey| #[trigger] map@.contains_key(k) implies map@[k]
                == mesh.indices@[first_with_key(keys@, i as nat, k)->0 as int] by {
                lemma_first_with_key(keys@, (i - 1) as nat, k);
                lemma_first_with_key(keys@, i as nat, k);
            }
        }
    }
    mesh.fill_color(default_color());
    mesh
}

/// The weld key of vertex `i` is made of what `quantize` answered for its three
/// coordinates.
pub open spec fn keyed_by<F: Fn(u32) -> i64>(quantize: F, words: Seq<u32>, key: VertexKey, i: int) -> bool {
    &&& call_ensures(quantize, (words[3 * i],), key.0)
    &&& call_ensures(quantize, (words[3 * i + 1],), key.1)
    &&& call_ensures(quantize, (words[3 * i + 2],), key.2)
}

/// What decoding a binary STL into a welded mesh gives, for the weld keys `keys` of its
/// vertices: the decoding error, or the welded vertices with the fallback colour.
pub open spec fn stl_mesh_ok(data: Seq<u8>, keys: Seq<VertexKey>, m: Mesh) -> bool {
    match spec_stl_vertex_words(data) {
        Ok(words) => {
            &&& 3 * keys.len() == words.len()
            &&& m.positions@ == spec_weld(words, keys, keys.len()).0
            &&& m.indices@ == spec_weld(words, keys, keys.len()).1
            &&& m.colors@ == repeat_color(spec_default_color(), spec_count(m.positions@.len()) as nat)
        },
        Err(_) => false,
    }
}

/// `m` is the mesh of the binary STL `data` welded by keys that `quantize` gave.
pub open spec fn welded_from<F: Fn(u32) -> i64>(quantize: F, data: Seq<u8>, m: Mesh) -> bool {
    match spec_stl_vertex_words(data) {
        Ok(words) => exists|keys: Seq<VertexKey>|
            #[trigger] stl_mesh_ok(data, keys, m) && forall|i: int|
                0 <= i < keys.len() ==> #[trigger] keyed_by(quantize, words, keys[i], i),
        Err(_) => false,
    }
}

/// Read a binary STL (see [`spec_stl_vertex_words`]) into an indexed mesh whose vertices
/// are welded by the keys that `quantize` gives their coordinates (binary32 bits); the
/// caller rounds each coordinate to its grid there. Every vertex gets the fallback colour.
pub fn read_binary_stl<F: Fn(u32) -> i64>(data: &[u8], quantize: F) -> (res: Result<Mesh, StlError>)
    requires
        forall|w: u32| call_requires(quantize, (w,)),
    ensures
        match spec_stl_vertex_words(data@) {
            Err(e) => res == Err::<Mesh, StlError>(e),
            Ok(_) => res matches Ok(m) && welded_from(quantize, data@, m),
        },
{
    let words = match parse_stl_vertices(data) {
        Ok(w) => w,
        Err(e) => return Err(e),
    };
    let ghost ws = words@;
    let n = words.len() / 3;
    let mut keys: Vec<VertexKey> = Vec::new();
    let mut i: usize = 0;
    while i < n
        invariant
            i <= n,
            n == ws.len() / 3,
            ws == words@,
            ws.len() % 9 == 0,
            ws.len() <= 9 * MAX_STL_TRIANGLES,
            forall|w: u32| call_requires(quantize, (w,)),
            keys@.len() == i,
            forall|j: int| 0 <= j < i ==> #[trigger] keyed_by(quantize, ws, keys@[j], j),
        decreases n - i,
    {
        let x = quantize(words[3 * i]);
        let y = quantize(words[3 * i + 1]);
        let z = quantize(words[3 * i + 2]);
        keys.push((x, y, z));
        assert(keyed_by(quantize, ws, keys@[i as int], i as int));
        i = i + 1;
    }
    let mesh = weld_vertices(&words, &keys);
    assert(stl_mesh_ok(data@, keys@, mesh));
    assert(welded_from(quantize, data@, mesh));
    Ok(mesh)
}

/// Every index produced by welding names one of the welded vertices.
pub proof fn lemma_weld_indices_in_range(words: Seq<u32>, keys: Seq<VertexKey>, n: nat)
    requires
        n <= keys.len(),
        3 * n <= words.len(),
        n <= u32::MAX,
    ensures
        forall|k: int|
            0 <= k < n ==> (#[trigger] spec_weld(words, keys, n).1[k]) < spec_weld(
                words,
                keys,
                n,
            ).0.len() / 3,
    decreases n,
{
    if n > 0 {
        lemma_weld_indices_in_range(words, keys, (n - 1) as nat);
        lemma_weld_shape(words, keys, (n - 1) as nat);
        lemma_weld_shape(words, keys, n);
        lemma_first_with_key(keys, (n - 1) as nat, keys[n - 1]);
    }
}

/// Vertices with different keys are never merged: when all keys are distinct, welding
/// keeps every vertex and numbers them in order.
pub proof fn lemma_weld_distinct_keys(words: Seq<u32>, keys: Seq<VertexKey>, n: nat)
    requires
        n <= keys.len(),
        3 * keys.len() == words.len(),
        n <= u32::MAX,
        forall|a: int, b: int| 0 <= a < b < keys.len() ==> keys[a] != keys[b],
    ensures
        spec_weld(words, keys, n).0 == words.subrange(0, (3 * n) as int),
        forall|k: int| 0 <= k < n ==> #[trigger] spec_weld(words, keys, n).1[k] == k,
    decreases n,
{
    if n > 0 {
        lemma_weld_distinct_keys(words, keys, (n - 1) as nat);
        lemma_weld_shape(words, keys, (n - 1) as nat);
        lemma_first_with_key(keys, (n - 1) as nat, keys[n - 1]);
        assert(words.subrange(0, 3 * (n - 1)) + words.subrange(3 * (n - 1), (3 * n) as int)
            =~= words.subrange(0, (3 * n) as int));
    }
}

/// The three words of vertex `i`.
pub open spec fn triple(s: Seq<u32>, i: int) -> Seq<u32> {
    s.subrange(3 * i, 3 * i + 3)
}

/// `first_with_key` finds the least vertex with the key.
proof fn lemma_first_with_key_least(keys: Seq<VertexKey>, m: nat, key: VertexKey)
    requires
        m <= keys.len(),
    ensures
        first_with_key(keys, m, key) matches Some(j) ==> forall|i: int| 0 <= i < j ==> keys[i] != key,
    decreases m,
{
    if m > 0 {
        lemma_first_with_key_least(keys, (m - 1) as nat, key);
        lemma_first_with_key(keys, (m - 1) as nat, key);
    }
}

/// The least vertex with the key, below `m`, is what `first_with_key` finds.
proof fn lemma_first_with_key_is_least(keys: Seq<VertexKey>, m: nat, j: nat)
    requires
        j < m <= keys.len(),
        forall|i: int| 0 <= i < j ==> keys[i] != keys[j as int],
    ensures
        first_with_key(keys, m, keys[j as int]) == Some(j),
    decreases m,
{
    if m > j + 1 {
        lemma_first_with_key_is_least(keys, (m - 1) as nat, j);
    } else {
        lemma_first_with_key(keys, j, keys[j as int]);
    }
}

/// Law of welding: every vertex's index names its own welded position, the position of
/// the first vertex with its weld key. Vertices with the same key share an index, and
/// vertices with different keys do not.
pub proof fn lemma_weld_positions(words: Seq<u32>, keys: Seq<VertexKey>, n: nat)
    requires
        n <= keys.len(),
        3 * keys.len() == words.len(),
        n <= u32::MAX,
    ensures
        forall|k: int|
            #![trigger spec_weld(words, keys, n).1[k]]
            0 <= k < n ==> (first_with_key(keys, (k + 1) as nat, keys[k]) matches Some(f)
                && 3 * spec_weld(words, keys, n).1[k] + 3 <= spec_weld(words, keys, n).0.len()
                && triple(spec_weld(words, keys, n).0, spec_weld(words, keys, n).1[k] as int)
                == triple(words, f as int)),
        forall|a: int, b: int|
            0 <= a < n && 0 <= b < n ==> (keys[a] == keys[b] <==> spec_weld(words, keys, n).1[a]
                == spec_weld(words, keys, n).1[b]),
    decreases n,
{
    if n > 0 {
        lemma_weld_positions(words, keys, (n - 1) as nat);
        lemma_weld_shape(words, keys, (n - 1) as nat);
        lemma_weld_shape(words, keys, n);
        lemma_weld_indices_in_range(words, keys, (n - 1) as nat);
        let m = (n - 1) as nat;
        let (p0, idx0) = spec_weld(words, keys, m);
        let (p, idx) = spec_weld(words, keys, n);
        lemma_first_with_key(keys, m, keys[m as int]);
        lemma_first_with_key_least(keys, m, keys[m as int]);
        assert forall|k: int| #![trigger idx[k]] 0 <= k < n implies (first_with_key(keys, (k + 1) as nat, keys[k]) matches Some(f)
            && 3 * idx[k] + 3 <= p.len() && triple(p, idx[k] as int) == triple(words, f as int)) by {
            if k < m {
                assert(idx[k] == idx0[k]);
                let f = first_with_key(keys, (k + 1) as nat, keys[k])->0;
                assert(triple(p0, idx0[k] as int) == triple(words, f as int));
                assert(triple(p, idx[k] as int) =~= triple(p0, idx0[k] as int));
            } else {
                match first_with_key(keys, m, keys[m as int]) {
                    Some(j) => {
                        lemma_first_with_key_least(keys, m, keys[m as int]);
                        lemma_first_with_key_is_least(keys, (j + 1) as nat, j);
                        lemma_first_with_key_is_least(keys, n, j);
                        assert(idx[k] == idx0[j as int]);
                        assert(first_with_key(keys, (j + 1) as nat, keys[j as int]) == Some(j));
                    },
                    None => {
                        lemma_first_with_key_is_least(keys, n, m);
                        assert(triple(p, idx[k] as int) =~= triple(words, m as int));
                    },
                }
            }
        }
        assert forall|a: int, b: int| #![trigger idx[a], idx[b]] 0 <= a < n && 0 <= b < n implies (keys[a] == keys[b] <==> idx[a]
            == idx[b]) by {
            let fa = first_with_key(keys, (a + 1) as nat, keys[a])->0;
            let fb = first_with_key(keys, (b + 1) as nat, keys[b])->0;
            lemma_first_with_key(keys, (a + 1) as nat, keys[a]);
            lemma_first_with_key(keys, (b + 1) as nat, keys[b]);
            if a < m && b < m {
            } else {
                match first_with_key(keys, m, keys[m as int]) {
                    Some(j) => {
                        assert(idx[m as int] == idx0[j as int]);
                        assert(keys[j as int] == keys[m as int]);
                    },
                    None => {
                        assert(idx[m as int] == p0.len() / 3);
                        assert(forall|i: int| 0 <= i < m ==> idx0[i] < p0.len() / 3);
                    },
                }
            }
        }
    }
}

} // verus!
