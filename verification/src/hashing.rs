use crate::topology::Mesh;
use vstd::bytes::{
    lemma_auto_spec_u64_to_from_le_bytes, spec_u32_to_le_bytes, spec_u64_from_le_bytes,
    spec_u64_to_le_bytes, u32_to_le_bytes, u64_from_le_bytes, u64_to_le_bytes,
};
use vstd::prelude::*;

verus! {

/// The 32-byte BLAKE3 digest of a byte string.
pub uninterp spec fn blake3_digest(input: Seq<u8>) -> Seq<u8>;

/// Calls `blake3::hash`, which hashes its whole input at once. The contract
/// claims only that the 32 bytes it returns are the BLAKE3 digest of exactly
/// the bytes passed in, a function of those bytes alone.
#[verifier::external_body]
fn blake3_hash(input: &[u8]) -> (digest: [u8; 32])
    ensures
        digest@ == blake3_digest(input@),
{
    *blake3::hash(input).as_bytes()
}

/// The coordinate bit pattern that enters the content hash: negative zero
/// is hashed as positive zero, every other pattern as it is.
pub open spec fn canonical_coordinate(bits: u64) -> u64 {
    if bits == 0x8000_0000_0000_0000u64 {
        0
    } else {
        bits
    }
}

/// Domain separator that opens the canonical mesh encoding:
/// `XVARNA_MESH_V1` followed by a NUL byte.
pub open spec fn mesh_hash_domain() -> Seq<u8> {
    seq![88u8, 86u8, 65u8, 82u8, 78u8, 65u8, 95u8, 77u8, 69u8, 83u8, 72u8, 95u8, 86u8, 49u8, 0u8]
}

/// Little-endian canonical coordinates of the first `count` positions.
pub open spec fn position_bytes(positions: Seq<[u64; 3]>, count: nat) -> Seq<u8>
    decreases count,
{
    if count == 0 {
        Seq::empty()
    } else {
        let point = positions[count - 1];
        position_bytes(positions, (count - 1) as nat) + spec_u64_to_le_bytes(
            canonical_coordinate(point[0]),
        ) + spec_u64_to_le_bytes(canonical_coordinate(point[1])) + spec_u64_to_le_bytes(
            canonical_coordinate(point[2]),
        )
    }
}

/// Little-endian indices of the first `count` triangles.
pub open spec fn triangle_bytes(triangles: Seq<[u32; 3]>, count: nat) -> Seq<u8>
    decreases count,
{
    if count == 0 {
        Seq::empty()
    } else {
        let triangle = triangles[count - 1];
        triangle_bytes(triangles, (count - 1) as nat) + spec_u32_to_le_bytes(triangle[0])
            + spec_u32_to_le_bytes(triangle[1]) + spec_u32_to_le_bytes(triangle[2])
    }
}

/// The canonical byte encoding of a mesh that its content hash covers: the
/// domain separator, the vertex count, every canonical coordinate, the face
/// count and every index, integers little-endian.
pub open spec fn canonical_mesh_bytes(mesh: Mesh) -> Seq<u8> {
    mesh_hash_domain() + spec_u64_to_le_bytes(mesh.positions@.len() as u64) + position_bytes(
        mesh.positions@,
        mesh.positions@.len(),
    ) + spec_u64_to_le_bytes(mesh.triangles@.len() as u64) + triangle_bytes(
        mesh.triangles@,
        mesh.triangles@.len(),
    )
}

fn canonical_coordinate_bits(bits: u64) -> (canonical: u64)
    ensures
        canonical == canonical_coordinate(bits),
{
    if bits == 0x8000_0000_0000_0000u64 {
        0
    } else {
        bits
    }
}

/// Encodes a mesh canonically for hashing.
pub fn canonical_mesh_encoding(mesh: &Mesh) -> (bytes: Vec<u8>)
    ensures
        bytes@ == canonical_mesh_bytes(*mesh),
{
    let mut bytes: Vec<u8> = vec![
        88u8,
        86u8,
        65u8,
        82u8,
        78u8,
        65u8,
        95u8,
        77u8,
        69u8,
        83u8,
        72u8,
        95u8,
        86u8,
        49u8,
        0u8,
    ];
    assert(bytes@ =~= mesh_hash_domain());
    let mut count_bytes = u64_to_le_bytes(mesh.positions.len() as u64);
    bytes.append(&mut count_bytes);
    let ghost header = bytes@;
    let mut index: usize = 0;
    while index < mesh.positions.len()
        invariant
            index <= mesh.positions@.len(),
            bytes@ == header + position_bytes(mesh.positions@, index as nat),
        decreases mesh.positions@.len() - index,
    {
        let point = mesh.positions[index];
        let mut x = u64_to_le_bytes(canonical_coordinate_bits(point[0]));
        let mut y = u64_to_le_bytes(canonical_coordinate_bits(point[1]));
        let mut z = u64_to_le_bytes(canonical_coordinate_bits(point[2]));
        bytes.append(&mut x);
        bytes.append(&mut y);
        bytes.append(&mut z);
        index = index + 1;
        proof {
            assert(bytes@ =~= header + position_bytes(mesh.positions@, index as nat));
        }
    }
    let mut face_count_bytes = u64_to_le_bytes(mesh.triangles.len() as u64);
    bytes.append(&mut face_count_bytes);
    let ghost middle = bytes@;
    let mut face: usize = 0;
    while face < mesh.triangles.len()
        invariant
            face <= mesh.triangles@.len(),
            bytes@ == middle + triangle_bytes(mesh.triangles@, face as nat),
        decreases mesh.triangles@.len() - face,
    {
        let triangle = mesh.triangles[face];
        let mut a = u32_to_le_bytes(triangle[0]);
        let mut b = u32_to_le_bytes(triangle[1]);
        let mut c = u32_to_le_bytes(triangle[2]);
        bytes.append(&mut a);
        bytes.append(&mut b);
        bytes.append(&mut c);
        face = face + 1;
        proof {
            assert(bytes@ =~= middle + triangle_bytes(mesh.triangles@, face as nat));
        }
    }
    proof {
        assert(bytes@ =~= canonical_mesh_bytes(*mesh));
    }
    bytes
}

/// Computes a deterministic BLAKE3 hash over canonical mesh bytes.
pub fn hash_mesh(mesh: &Mesh) -> (digest: [u8; 32])
    ensures
        digest@ == blake3_digest(canonical_mesh_bytes(*mesh)),
{
    let bytes = canonical_mesh_encoding(mesh);
    blake3_hash(bytes.as_slice())
}

/// Two position lists that agree on every canonical coordinate encode to
/// the same bytes.
proof fn lemma_position_bytes_canonical(left: Seq<[u64; 3]>, right: Seq<[u64; 3]>, count: nat)
    requires
        count <= left.len(),
        count <= right.len(),
        forall|vertex: int, axis: int|
            0 <= vertex < count && 0 <= axis < 3 ==> canonical_coordinate(
                #[trigger] left[vertex][axis],
            ) == canonical_coordinate(right[vertex][axis]),
    ensures
        position_bytes(left, count) == position_bytes(right, count),
    decreases count,
{
    if count > 0 {
        lemma_position_bytes_canonical(left, right, (count - 1) as nat);
        let last = count - 1;
        assert(canonical_coordinate(left[last][0]) == canonical_coordinate(right[last][0]));
        assert(canonical_coordinate(left[last][1]) == canonical_coordinate(right[last][1]));
        assert(canonical_coordinate(left[last][2]) == canonical_coordinate(right[last][2]));
    }
}

/// The content hash does not tell negative zero from positive zero: two
/// meshes with the same faces whose coordinates agree once negative zero is
/// read as positive zero have the same hash.
pub proof fn lemma_hash_ignores_zero_sign(left: Mesh, right: Mesh)
    requires
        left.triangles@ == right.triangles@,
        left.positions@.len() == right.positions@.len(),
        forall|vertex: int, axis: int|
            0 <= vertex < left.positions@.len() && 0 <= axis < 3 ==> canonical_coordinate(
                #[trigger] left.positions@[vertex][axis],
            ) == canonical_coordinate(right.positions@[vertex][axis]),
    ensures
        canonical_mesh_bytes(left) == canonical_mesh_bytes(right),
        blake3_digest(canonical_mesh_bytes(left)) == blake3_digest(canonical_mesh_bytes(right)),
{
    lemma_position_bytes_canonical(left.positions@, right.positions@, left.positions@.len());
}

/// Reads the little-endian word `index` of a 32-byte digest.
pub fn hash_word(hash: &[u8; 32], index: usize) -> (word: u64)
    requires
        index < 4,
    ensures
        word == spec_u64_from_le_bytes(hash@.subrange(8 * index as int, 8 * index as int + 8)),
{
    let offset = index * 8;
    let mut bytes: Vec<u8> = Vec::new();
    let mut k: usize = 0;
    while k < 8
        invariant
            k <= 8,
            offset == 8 * index,
            index < 4,
            bytes@ == hash@.subrange(offset as int, offset + k),
        decreases 8 - k,
    {
        bytes.push(hash[offset + k]);
        k = k + 1;
        proof {
            assert(bytes@ =~= hash@.subrange(offset as int, offset + k));
        }
    }
    u64_from_le_bytes(bytes.as_slice())
}

/// Assembles a 32-byte digest from four little-endian words.
pub fn hash_from_words(words: [u64; 4]) -> (hash: [u8; 32])
    ensures
        hash@ == spec_u64_to_le_bytes(words[0]) + spec_u64_to_le_bytes(words[1])
            + spec_u64_to_le_bytes(words[2]) + spec_u64_to_le_bytes(words[3]),
{
    proof {
        lemma_auto_spec_u64_to_from_le_bytes();
    }
    let mut hash = [0u8; 32];
    let ghost target = spec_u64_to_le_bytes(words[0]) + spec_u64_to_le_bytes(words[1])
        + spec_u64_to_le_bytes(words[2]) + spec_u64_to_le_bytes(words[3]);
    let mut word: usize = 0;
    while word < 4
        invariant
            word <= 4,
            hash@.len() == 32,
            target.len() == 32,
            target == spec_u64_to_le_bytes(words[0]) + spec_u64_to_le_bytes(words[1])
                + spec_u64_to_le_bytes(words[2]) + spec_u64_to_le_bytes(words[3]),
            forall|i: int| 0 <= i < 8 * word ==> #[trigger] hash@[i] == target[i],
        decreases 4 - word,
    {
        let bytes = u64_to_le_bytes(words[word]);
        let mut k: usize = 0;
        while k < 8
            invariant
                k <= 8,
                word < 4,
                hash@.len() == 32,
                bytes@ == spec_u64_to_le_bytes(words[word as int]),
                bytes@.len() == 8,
                target.len() == 32,
                target == spec_u64_to_le_bytes(words[0]) + spec_u64_to_le_bytes(words[1])
                    + spec_u64_to_le_bytes(words[2]) + spec_u64_to_le_bytes(words[3]),
                forall|i: int| 0 <= i < 8 * word + k ==> #[trigger] hash@[i] == target[i],
            decreases 8 - k,
        {
            hash[word * 8 + k] = bytes[k];
            proof {
                lemma_auto_spec_u64_to_from_le_bytes();
                let w0 = spec_u64_to_le_bytes(words[0]);
                let w1 = spec_u64_to_le_bytes(words[1]);
                let w2 = spec_u64_to_le_bytes(words[2]);
                let w3 = spec_u64_to_le_bytes(words[3]);
                assert(w0.len() == 8 && w1.len() == 8 && w2.len() == 8 && w3.len() == 8);
                let i = 8 * word + k;
                if word == 0 {
                    assert((w0 + w1)[i] == w0[k as int]);
                    assert((w0 + w1 + w2)[i] == (w0 + w1)[i]);
                } else if word == 1 {
                    assert((w0 + w1)[i] == w1[k as int]);
                    assert((w0 + w1 + w2)[i] == (w0 + w1)[i]);
                } else if word == 2 {
                    assert((w0 + w1 + w2)[i] == w2[k as int]);
                } else {
                    assert((w0 + w1 + w2 + w3)[i] == w3[k as int]);
                }
                assert(target[i] == spec_u64_to_le_bytes(words[word as int])[k as int]);
            }
            k = k + 1;
        }
        word = word + 1;
    }
    proof {
        assert(hash@ =~= target);
    }
    hash
}

/// Splitting a digest into its four words and assembling them again gives
/// the digest back.
pub proof fn lemma_hash_words_round_trip(hash: Seq<u8>)
    requires
        hash.len() == 32,
    ensures
        spec_u64_to_le_bytes(spec_u64_from_le_bytes(hash.subrange(0, 8))) + spec_u64_to_le_bytes(
            spec_u64_from_le_bytes(hash.subrange(8, 16)),
        ) + spec_u64_to_le_bytes(spec_u64_from_le_bytes(hash.subrange(16, 24)))
            + spec_u64_to_le_bytes(spec_u64_from_le_bytes(hash.subrange(24, 32))) == hash,
{
    lemma_auto_spec_u64_to_from_le_bytes();
    assert(spec_u64_to_le_bytes(spec_u64_from_le_bytes(hash.subrange(0, 8))) == hash.subrange(
        0,
        8,
    ));
    assert(spec_u64_to_le_bytes(spec_u64_from_le_bytes(hash.subrange(8, 16))) == hash.subrange(
        8,
        16,
    ));
    assert(spec_u64_to_le_bytes(spec_u64_from_le_bytes(hash.subrange(16, 24)))
        == hash.subrange(16, 24));
    assert(spec_u64_to_le_bytes(spec_u64_from_le_bytes(hash.subrange(24, 32)))
        == hash.subrange(24, 32));
    assert(hash.subrange(0, 8) + hash.subrange(8, 16) + hash.subrange(16, 24) + hash.subrange(
        24,
        32,
    ) =~= hash);
}

/// Assembling a digest from four words and reading word `index` back gives
/// that word.
pub proof fn lemma_word_of_assembled_hash(words: Seq<u64>, index: int)
    requires
        words.len() == 4,
        0 <= index < 4,
    ensures
        ({
            let hash = spec_u64_to_le_bytes(words[0]) + spec_u64_to_le_bytes(words[1])
                + spec_u64_to_le_bytes(words[2]) + spec_u64_to_le_bytes(words[3]);
            spec_u64_from_le_bytes(hash.subrange(8 * index, 8 * index + 8)) == words[index]
        }),
{
    lemma_auto_spec_u64_to_from_le_bytes();
    let hash = spec_u64_to_le_bytes(words[0]) + spec_u64_to_le_bytes(words[1])
        + spec_u64_to_le_bytes(words[2]) + spec_u64_to_le_bytes(words[3]);
    assert(hash.subrange(8 * index, 8 * index + 8) =~= spec_u64_to_le_bytes(words[index]));
}

/// Domain separator that opens the surface-grid identity encoding:
/// `xvarna.surface-grid.v1` followed by a NUL byte.
pub open spec fn surface_grid_hash_domain() -> Seq<u8> {
    seq![
        120u8, 118u8, 97u8, 114u8, 110u8, 97u8, 46u8, 115u8, 117u8, 114u8, 102u8, 97u8, 99u8,
        101u8, 45u8, 103u8, 114u8, 105u8, 100u8, 46u8, 118u8, 49u8, 0u8,
    ]
}

/// Little-endian coordinates of the first `count` positions, exactly as
/// stored.
pub open spec fn raw_position_bytes(positions: Seq<[u64; 3]>, count: nat) -> Seq<u8>
    decreases count,
{
    if count == 0 {
        Seq::empty()
    } else {
        let point = positions[count - 1];
        raw_position_bytes(positions, (count - 1) as nat) + spec_u64_to_le_bytes(point[0])
            + spec_u64_to_le_bytes(point[1]) + spec_u64_to_le_bytes(point[2])
    }
}

/// The bytes that identify a surface grid: the domain separator, the grid
/// options (the two lengths by their binary64 bit patterns), the source
/// mesh with its coordinates exactly as stored, the skipped face count and
/// the cell count, integers little-endian.
pub open spec fn surface_grid_bytes(
    mesh: Mesh,
    target_edge_length_bits: u64,
    sensor_offset_bits: u64,
    first_sensor_id: u64,
    maximum_cell_count: u64,
    skipped_face_count: u64,
    cell_count: u64,
) -> Seq<u8> {
    surface_grid_hash_domain() + spec_u64_to_le_bytes(target_edge_length_bits)
        + spec_u64_to_le_bytes(sensor_offset_bits) + spec_u64_to_le_bytes(first_sensor_id)
        + spec_u64_to_le_bytes(maximum_cell_count) + spec_u64_to_le_bytes(
        mesh.positions@.len() as u64,
    ) + raw_position_bytes(mesh.positions@, mesh.positions@.len()) + spec_u64_to_le_bytes(
        mesh.triangles@.len() as u64,
    ) + triangle_bytes(mesh.triangles@, mesh.triangles@.len()) + spec_u64_to_le_bytes(
        skipped_face_count,
    ) + spec_u64_to_le_bytes(cell_count)
}

/// Computes the BLAKE3 identity of a surface grid from its source mesh, its
/// options and its result counts.
pub fn hash_surface_grid(
    mesh: &Mesh,
    target_edge_length_bits: u64,
    sensor_offset_bits: u64,
    first_sensor_id: u64,
    maximum_cell_count: usize,
    skipped_face_count: usize,
    cell_count: usize,
) -> (digest: [u8; 32])
    ensures
        digest@ == blake3_digest(
            surface_grid_bytes(
                *mesh,
                target_edge_length_bits,
                sensor_offset_bits,
                first_sensor_id,
                maximum_cell_count as u64,
                skipped_face_count as u64,
                cell_count as u64,
            ),
        ),
{
    let mut bytes: Vec<u8> = vec![
        120u8, 118u8, 97u8, 114u8, 110u8, 97u8, 46u8, 115u8, 117u8, 114u8, 102u8, 97u8, 99u8,
        101u8, 45u8, 103u8, 114u8, 105u8, 100u8, 46u8, 118u8, 49u8, 0u8,
    ];
    assert(bytes@ =~= surface_grid_hash_domain());
    let mut word = u64_to_le_bytes(target_edge_length_bits);
    bytes.append(&mut word);
    let mut word = u64_to_le_bytes(sensor_offset_bits);
    bytes.append(&mut word);
    let mut word = u64_to_le_bytes(first_sensor_id);
    bytes.append(&mut word);
    let mut word = u64_to_le_bytes(maximum_cell_count as u64);
    bytes.append(&mut word);
    let mut word = u64_to_le_bytes(mesh.positions.len() as u64);
    bytes.append(&mut word);
    let ghost header = bytes@;
    let mut index: usize = 0;
    while index < mesh.positions.len()
        invariant
            index <= mesh.positions@.len(),
            bytes@ == header + raw_position_bytes(mesh.positions@, index as nat),
        decreases mesh.positions@.len() - index,
    {
        let point = mesh.positions[index];
        let mut x = u64_to_le_bytes(point[0]);
        let mut y = u64_to_le_bytes(point[1]);
        let mut z = u64_to_le_bytes(point[2]);
        bytes.append(&mut x);
        bytes.append(&mut y);
        bytes.append(&mut z);
        index = index + 1;
        proof {
            assert(bytes@ =~= header + raw_position_bytes(mesh.positions@, index as nat));
        }
    }
    let mut word = u64_to_le_bytes(mesh.triangles.len() as u64);
    bytes.append(&mut word);
    let ghost middle = bytes@;
    let mut face: usize = 0;
    while face < mesh.triangles.len()
        invariant
            face <= mesh.triangles@.len(),
            bytes@ == middle + triangle_bytes(mesh.triangles@, face as nat),
        decreases mesh.triangles@.len() - face,
    {
        let triangle = mesh.triangles[face];
        let mut a = u32_to_le_bytes(triangle[0]);
        let mut b = u32_to_le_bytes(triangle[1]);
        let mut c = u32_to_le_bytes(triangle[2]);
        bytes.append(&mut a);
        bytes.append(&mut b);
        bytes.append(&mut c);
        face = face + 1;
        proof {
            assert(bytes@ =~= middle + triangle_bytes(mesh.triangles@, face as nat));
        }
    }
    let mut word = u64_to_le_bytes(skipped_face_count as u64);
    bytes.append(&mut word);
    let mut word = u64_to_le_bytes(cell_count as u64);
    bytes.append(&mut word);
    proof {
        assert(bytes@ =~= surface_grid_bytes(
            *mesh,
            target_edge_length_bits,
            sensor_offset_bits,
            first_sensor_id,
            maximum_cell_count as u64,
            skipped_face_count as u64,
            cell_count as u64,
        ));
    }
    blake3_hash(bytes.as_slice())
}

proof fn lemma_position_bytes_len(positions: Seq<[u64; 3]>, count: nat)
    requires
        count <= positions.len(),
    ensures
        position_bytes(positions, count).len() == 24 * count,
    decreases count,
{
    lemma_auto_spec_u64_to_from_le_bytes();
    if count > 0 {
        lemma_position_bytes_len(positions, (count - 1) as nat);
        let p = positions[count - 1];
        assert(spec_u64_to_le_bytes(canonical_coordinate(p[0])).len() == 8);
        assert(spec_u64_to_le_bytes(canonical_coordinate(p[1])).len() == 8);
        assert(spec_u64_to_le_bytes(canonical_coordinate(p[2])).len() == 8);
    }
}

/// Equal position encodings carry equal canonical coordinates.
proof fn lemma_position_bytes_decode(left: Seq<[u64; 3]>, right: Seq<[u64; 3]>, count: nat)
    requires
        count <= left.len(),
        count <= right.len(),
        position_bytes(left, count) == position_bytes(right, count),
    ensures
        forall|vertex: int, axis: int|
            0 <= vertex < count && 0 <= axis < 3 ==> canonical_coordinate(
                #[trigger] left[vertex][axis],
            ) == canonical_coordinate(right[vertex][axis]),
    decreases count,
{
    lemma_auto_spec_u64_to_from_le_bytes();
    if count > 0 {
        let c = (count - 1) as nat;
        lemma_position_bytes_len(left, c);
        lemma_position_bytes_len(right, c);
        let l = left[c as int];
        let r = right[c as int];
        let la = position_bytes(left, c);
        let ra = position_bytes(right, c);
        let l0 = spec_u64_to_le_bytes(canonical_coordinate(l[0]));
        let l1 = spec_u64_to_le_bytes(canonical_coordinate(l[1]));
        let l2 = spec_u64_to_le_bytes(canonical_coordinate(l[2]));
        let r0 = spec_u64_to_le_bytes(canonical_coordinate(r[0]));
        let r1 = spec_u64_to_le_bytes(canonical_coordinate(r[1]));
        let r2 = spec_u64_to_le_bytes(canonical_coordinate(r[2]));
        let whole_l = la + l0 + l1 + l2;
        let whole_r = ra + r0 + r1 + r2;
        assert(whole_l == position_bytes(left, count));
        assert(whole_r == position_bytes(right, count));
        let k = la.len() as int;
        assert(whole_l.subrange(0, k) =~= la);
        assert(whole_r.subrange(0, k) =~= ra);
        assert(whole_l.subrange(k, k + 8) =~= l0);
        assert(whole_r.subrange(k, k + 8) =~= r0);
        assert(whole_l.subrange(k + 8, k + 16) =~= l1);
        assert(whole_r.subrange(k + 8, k + 16) =~= r1);
        assert(whole_l.subrange(k + 16, k + 24) =~= l2);
        assert(whole_r.subrange(k + 16, k + 24) =~= r2);
        lemma_position_bytes_decode(left, right, c);
        assert(spec_u64_from_le_bytes(l0) == spec_u64_from_le_bytes(r0));
        assert(spec_u64_from_le_bytes(l1) == spec_u64_from_le_bytes(r1));
        assert(spec_u64_from_le_bytes(l2) == spec_u64_from_le_bytes(r2));
    }
}

/// The content encoding tells apart every two coordinate values except the
/// two zeros: when two meshes encode to the same bytes, they have the same
/// number of vertices and every coordinate agrees bit for bit, unless one is
/// positive and the other negative zero. So a mesh and its mirror image, or
/// any two meshes with a coordinate that differs in more than the sign of
/// zero, encode (and hash) differently.
pub proof fn lemma_encoding_keeps_coordinates(left: Mesh, right: Mesh)
    requires
        canonical_mesh_bytes(left) == canonical_mesh_bytes(right),
    ensures
        left.positions@.len() == right.positions@.len(),
        forall|vertex: int, axis: int|
            0 <= vertex < left.positions@.len() && 0 <= axis < 3 ==> #[trigger] left.positions@[vertex][axis]
                == right.positions@[vertex][axis] || ((left.positions@[vertex][axis] == 0
                || left.positions@[vertex][axis] == 0x8000_0000_0000_0000u64) && (
            right.positions@[vertex][axis] == 0 || right.positions@[vertex][axis]
                == 0x8000_0000_0000_0000u64)),
{
    lemma_auto_spec_u64_to_from_le_bytes();
    let n = left.positions@.len();
    let m = right.positions@.len();
    let domain = mesh_hash_domain();
    let lc = spec_u64_to_le_bytes(n as u64);
    let rc = spec_u64_to_le_bytes(m as u64);
    let lp = position_bytes(left.positions@, n);
    let rp = position_bytes(right.positions@, m);
    let whole_l = canonical_mesh_bytes(left);
    let whole_r = canonical_mesh_bytes(right);
    assert(domain.len() == 15);
    assert(whole_l.subrange(15, 23) =~= lc);
    assert(whole_r.subrange(15, 23) =~= rc);
    assert(spec_u64_from_le_bytes(lc) == spec_u64_from_le_bytes(rc));
    assert(left.positions.len() == n && right.positions.len() == m);
    assert(n <= u64::MAX && m <= u64::MAX);
    assert(n == m);
    lemma_position_bytes_len(left.positions@, n);
    lemma_position_bytes_len(right.positions@, m);
    assert(whole_l.subrange(23, 23 + 24 * n as int) =~= lp);
    assert(whole_r.subrange(23, 23 + 24 * n as int) =~= rp);
    lemma_position_bytes_decode(left.positions@, right.positions@, n);
}

} // verus!
