use std::collections::HashMap;
use vstd::prelude::*;
use vstd::std_specs::hash::group_hash_axioms;

verus! {

broadcast use group_hash_axioms;

/// A triangle mesh whose coordinates are carried as IEEE-754 binary64 bit
/// patterns, so that every decision about them is an integer decision.
#[derive(Clone, Debug)]
pub struct Mesh {
    /// Vertex positions: the bit patterns of the x, y and z coordinates.
    pub positions: Vec<[u64; 3]>,
    /// Triangle vertex indices.
    pub triangles: Vec<[u32; 3]>,
}

/// A binary64 value is finite when its exponent field is not all ones.
pub open spec fn coordinate_is_finite(bits: u64) -> bool {
    (bits >> 52u64) & 0x7ffu64 != 0x7ffu64
}

/// All three coordinates of a point are finite.
pub open spec fn point_is_finite(point: [u64; 3]) -> bool {
    coordinate_is_finite(point[0]) && coordinate_is_finite(point[1]) && coordinate_is_finite(
        point[2],
    )
}

/// Every index of a triangle addresses one of `vertex_count` vertices.
pub open spec fn indices_in_range(triangle: [u32; 3], vertex_count: int) -> bool {
    triangle[0] < vertex_count && triangle[1] < vertex_count && triangle[2] < vertex_count
}

/// A triangle names one vertex twice.
pub open spec fn repeats_index(triangle: [u32; 3]) -> bool {
    triangle[0] == triangle[1] || triangle[1] == triangle[2] || triangle[2] == triangle[0]
}

/// The indices of a triangle in ascending order, forgetting its winding.
pub open spec fn sorted_corners(triangle: [u32; 3]) -> (int, int, int) {
    let a = triangle[0] as int;
    let b = triangle[1] as int;
    let c = triangle[2] as int;
    let low = if a <= b && a <= c { a } else if b <= c { b } else { c };
    let high = if a >= b && a >= c { a } else if b >= c { b } else { c };
    (low, a + b + c - low - high, high)
}

/// What the audit decides about one source face.
#[derive(Clone, Copy, Debug, PartialEq, Eq, Structural)]
pub enum FaceVerdict {
    /// The face references a vertex outside the position buffer.
    InvalidIndex,
    /// At least one referenced vertex is non-finite.
    NonFiniteVertex,
    /// The face repeats an index or has negligible area.
    Degenerate,
    /// The face names the same vertices as an earlier accepted face.
    Duplicate,
    /// The face is unique, finite and non-degenerate.
    Accepted,
}

/// The verdict on face `index`, given the verdicts on all earlier faces.
/// `negligible_area[index]` tells whether the face's doubled area is within
/// the audit's area threshold.
pub open spec fn face_verdict(
    mesh: Mesh,
    negligible_area: Seq<bool>,
    earlier: Seq<FaceVerdict>,
    index: int,
) -> FaceVerdict {
    let triangle = mesh.triangles@[index];
    let positions = mesh.positions@;
    if !indices_in_range(triangle, positions.len() as int) {
        FaceVerdict::InvalidIndex
    } else if !(point_is_finite(positions[triangle[0] as int]) && point_is_finite(
        positions[triangle[1] as int],
    ) && point_is_finite(positions[triangle[2] as int])) {
        FaceVerdict::NonFiniteVertex
    } else if repeats_index(triangle) || negligible_area[index] {
        FaceVerdict::Degenerate
    } else if exists|j: int|
        0 <= j < index && earlier[j] == FaceVerdict::Accepted && #[trigger] sorted_corners(
            mesh.triangles@[j],
        ) == sorted_corners(triangle) {
        FaceVerdict::Duplicate
    } else {
        FaceVerdict::Accepted
    }
}

/// The verdicts on the first `count` faces, in face order.
pub open spec fn face_verdicts(mesh: Mesh, negligible_area: Seq<bool>, count: nat) -> Seq<
    FaceVerdict,
>
    decreases count,
{
    if count == 0 {
        Seq::empty()
    } else {
        let earlier = face_verdicts(mesh, negligible_area, (count - 1) as nat);
        earlier.push(face_verdict(mesh, negligible_area, earlier, count - 1))
    }
}

/// The verdicts on every face of the mesh.
pub open spec fn all_face_verdicts(mesh: Mesh, negligible_area: Seq<bool>) -> Seq<FaceVerdict> {
    face_verdicts(mesh, negligible_area, mesh.triangles@.len())
}

pub proof fn lemma_face_verdicts_prefix(mesh: Mesh, negligible_area: Seq<bool>, count: nat, shorter: nat)
    requires
        shorter <= count,
    ensures
        face_verdicts(mesh, negligible_area, count).len() == count,
        face_verdicts(mesh, negligible_area, shorter) =~= face_verdicts(mesh, negligible_area, count).take(shorter as int),
    decreases count,
{
    if count > 0 {
        if shorter < count {
            lemma_face_verdicts_prefix(mesh, negligible_area, (count - 1) as nat, shorter);
        } else {
            lemma_face_verdicts_prefix(mesh, negligible_area, (count - 1) as nat, (count - 1) as nat);
        }
    }
}

/// Key of a triangle's vertex set, independent of winding.
spec fn corner_key(corners: (int, int, int)) -> int {
    corners.0 * 0x1_0000_0000_0000_0000 + corners.1 * 0x1_0000_0000 + corners.2
}

proof fn lemma_key_digits(a0: int, a1: int, a2: int, b0: int, b1: int, b2: int)
    requires
        0 <= a1 < 0x1_0000_0000,
        0 <= a2 < 0x1_0000_0000,
        0 <= b1 < 0x1_0000_0000,
        0 <= b2 < 0x1_0000_0000,
        corner_key((a0, a1, a2)) == corner_key((b0, b1, b2)),
    ensures
        a0 == b0 && a1 == b1 && a2 == b2,
{
    let low_a = a1 * 0x1_0000_0000 + a2;
    let low_b = b1 * 0x1_0000_0000 + b2;
    assert(0 <= low_a < 0x1_0000_0000_0000_0000);
    assert(0 <= low_b < 0x1_0000_0000_0000_0000);
    if a0 < b0 {
        assert(a0 * 0x1_0000_0000_0000_0000 + 0x1_0000_0000_0000_0000 <= b0 * 0x1_0000_0000_0000_0000);
    } else if b0 < a0 {
        assert(b0 * 0x1_0000_0000_0000_0000 + 0x1_0000_0000_0000_0000 <= a0 * 0x1_0000_0000_0000_0000);
    }
    assert(a0 == b0);
    assert(low_a == low_b);
    if a1 < b1 {
        assert(a1 * 0x1_0000_0000 + 0x1_0000_0000 <= b1 * 0x1_0000_0000);
    } else if b1 < a1 {
        assert(b1 * 0x1_0000_0000 + 0x1_0000_0000 <= a1 * 0x1_0000_0000);
    }
}

proof fn lemma_corner_key_injective(a: [u32; 3], b: [u32; 3])
    ensures
        (corner_key(sorted_corners(a)) == corner_key(sorted_corners(b))) == (sorted_corners(a)
            == sorted_corners(b)),
{
    let sa = sorted_corners(a);
    let sb = sorted_corners(b);
    if corner_key(sa) == corner_key(sb) {
        lemma_key_digits(sa.0, sa.1, sa.2, sb.0, sb.1, sb.2);
    }
}

fn sorted_corner_key(triangle: [u32; 3]) -> (key: u128)
    ensures
        key as int == corner_key(sorted_corners(triangle)),
{
    let a = triangle[0];
    let b = triangle[1];
    let c = triangle[2];
    let low = if a <= b && a <= c { a } else if b <= c { b } else { c };
    let high = if a >= b && a >= c { a } else if b >= c { b } else { c };
    let middle = if low == a {
        if high == b { c } else { b }
    } else if low == b {
        if high == a { c } else { a }
    } else {
        if high == a { b } else { a }
    };
    assert(middle as int == a + b + c - low - high);
    (low as u128) * 0x1_0000_0000_0000_0000 + (middle as u128) * 0x1_0000_0000 + (high as u128)
}

pub fn point_finite(point: [u64; 3]) -> (finite: bool)
    ensures
        finite == point_is_finite(point),
{
    (point[0] >> 52u64) & 0x7ffu64 != 0x7ffu64 && (point[1] >> 52u64) & 0x7ffu64 != 0x7ffu64 && (
    point[2] >> 52u64) & 0x7ffu64 != 0x7ffu64
}

/// Decides, face by face, whether each face is accepted or why it is not.
pub fn classify_faces(mesh: &Mesh, negligible_area: &Vec<bool>) -> (verdicts: Vec<FaceVerdict>)
    requires
        negligible_area@.len() == mesh.triangles@.len(),
    ensures
        verdicts@ == all_face_verdicts(*mesh, negligible_area@),
{
    let vertex_count = mesh.positions.len();
    let face_count = mesh.triangles.len();
    let mut verdicts: Vec<FaceVerdict> = Vec::new();
    let mut accepted_keys: HashMap<u128, usize> = HashMap::new();
    let mut index: usize = 0;
    while index < face_count
        invariant
            index <= face_count,
            face_count == mesh.triangles@.len(),
            vertex_count == mesh.positions@.len(),
            negligible_area@.len() == face_count,
            verdicts@ == face_verdicts(*mesh, negligible_area@, index as nat),
            forall|key: u128|
                accepted_keys@.contains_key(key) <==> exists|j: int|
                    0 <= j < index && verdicts@[j] == FaceVerdict::Accepted && corner_key(
                        #[trigger] sorted_corners(mesh.triangles@[j]),
                    ) == key as int,
        decreases face_count - index,
    {
        proof {
            lemma_face_verdicts_prefix(*mesh, negligible_area@, index as nat, index as nat);
        }
        let triangle = mesh.triangles[index];
        let ghost earlier = verdicts@;
        let verdict = if (triangle[0] as usize) >= vertex_count || (triangle[1] as usize)
            >= vertex_count || (triangle[2] as usize) >= vertex_count {
            FaceVerdict::InvalidIndex
        } else if !(point_finite(mesh.positions[triangle[0] as usize]) && point_finite(
            mesh.positions[triangle[1] as usize],
        ) && point_finite(mesh.positions[triangle[2] as usize])) {
            FaceVerdict::NonFiniteVertex
        } else if triangle[0] == triangle[1] || triangle[1] == triangle[2] || triangle[2]
            == triangle[0] || negligible_area[index] {
            FaceVerdict::Degenerate
        } else {
            let key = sorted_corner_key(triangle);
            if accepted_keys.contains_key(&key) {
                proof {
                    let j = choose|j: int|
                        0 <= j < index && earlier[j] == FaceVerdict::Accepted && corner_key(
                            #[trigger] sorted_corners(mesh.triangles@[j]),
                        ) == key as int;
                    lemma_corner_key_injective(mesh.triangles@[j], triangle);
                }
                FaceVerdict::Duplicate
            } else {
                proof {
                    assert forall|j: int|
                        0 <= j < index && earlier[j] == FaceVerdict::Accepted implies #[trigger] sorted_corners(
                            mesh.triangles@[j],
                        ) != sorted_corners(triangle) by {
                        lemma_corner_key_injective(mesh.triangles@[j], triangle);
                    }
                }
                accepted_keys.insert(key, index);
                FaceVerdict::Accepted
            }
        };
        proof {
            assert(verdict == face_verdict(*mesh, negligible_area@, earlier, index as int));
        }
        verdicts.push(verdict);
        index = index + 1;
        proof {
            assert forall|key: u128|
                accepted_keys@.contains_key(key) implies exists|j: int|
                    0 <= j < index && verdicts@[j] == FaceVerdict::Accepted && corner_key(
                        #[trigger] sorted_corners(mesh.triangles@[j]),
                    ) == key as int by {
                if key as int == corner_key(sorted_corners(triangle)) && verdict == FaceVerdict::Accepted {
                    assert(verdicts@[index - 1] == FaceVerdict::Accepted);
                    assert(sorted_corners(mesh.triangles@[index - 1]) == sorted_corners(triangle));
                } else {
                    let j = choose|j: int|
                        0 <= j < index - 1 && earlier[j] == FaceVerdict::Accepted && corner_key(
                            #[trigger] sorted_corners(mesh.triangles@[j]),
                        ) == key as int;
                    assert(verdicts@[j] == earlier[j]);
                }
            }
            assert forall|key: u128|
                (exists|j: int|
                    0 <= j < index && verdicts@[j] == FaceVerdict::Accepted && corner_key(
                        #[trigger] sorted_corners(mesh.triangles@[j]),
                    ) == key as int) implies accepted_keys@.contains_key(key) by {
                let j = choose|j: int|
                    0 <= j < index && verdicts@[j] == FaceVerdict::Accepted && corner_key(
                        #[trigger] sorted_corners(mesh.triangles@[j]),
                    ) == key as int;
                if j < index - 1 {
                    assert(verdicts@[j] == earlier[j]);
                }
            }
        }
    }
    verdicts
}


/// Identity of the undirected edge between `low < high`.
pub open spec fn edge_key(low: int, high: int) -> int {
    low * 0x1_0000_0000 + high
}

/// The undirected edge traversed from `start` to `end`, and whether the
/// traversal runs from the lower to the higher index.
pub open spec fn half_edge(start: u32, end: u32) -> (int, bool) {
    if start < end {
        (edge_key(start as int, end as int), true)
    } else {
        (edge_key(end as int, start as int), false)
    }
}

/// The three half-edges of a triangle, in winding order.
pub open spec fn triangle_half_edges(triangle: [u32; 3]) -> Seq<(int, bool)> {
    seq![
        half_edge(triangle[0], triangle[1]),
        half_edge(triangle[1], triangle[2]),
        half_edge(triangle[2], triangle[0]),
    ]
}

/// Half-edges of the accepted faces among the first `count` faces.
pub open spec fn accepted_half_edges(mesh: Mesh, verdicts: Seq<FaceVerdict>, count: nat) -> Seq<
    (int, bool),
>
    decreases count,
{
    if count == 0 {
        Seq::empty()
    } else {
        let earlier = accepted_half_edges(mesh, verdicts, (count - 1) as nat);
        if verdicts[count - 1] == FaceVerdict::Accepted {
            earlier + triangle_half_edges(mesh.triangles@[count - 1])
        } else {
            earlier
        }
    }
}

/// Number of half-edges on the undirected edge `key`.
pub open spec fn incidence(half_edges: Seq<(int, bool)>, key: int) -> nat
    decreases half_edges.len(),
{
    if half_edges.len() == 0 {
        0
    } else {
        incidence(half_edges.drop_last(), key) + if half_edges.last().0 == key {
            1nat
        } else {
            0nat
        }
    }
}

/// Number of half-edges on `key` that run from the lower to the higher index.
pub open spec fn forward_incidence(half_edges: Seq<(int, bool)>, key: int) -> nat
    decreases half_edges.len(),
{
    if half_edges.len() == 0 {
        0
    } else {
        forward_incidence(half_edges.drop_last(), key) + if half_edges.last().0 == key
            && half_edges.last().1 {
            1nat
        } else {
            0nat
        }
    }
}

/// Edges used by exactly one half-edge.
pub open spec fn boundary_edges(half_edges: Seq<(int, bool)>) -> Set<int> {
    Set::new(|key: int| incidence(half_edges, key) == 1)
}

/// Edges used by more than two half-edges.
pub open spec fn non_manifold_edges(half_edges: Seq<(int, bool)>) -> Set<int> {
    Set::new(|key: int| incidence(half_edges, key) > 2)
}

/// Two-face edges traversed twice in the same direction.
pub open spec fn inconsistent_winding_edges(half_edges: Seq<(int, bool)>) -> Set<int> {
    Set::new(
        |key: int|
            incidence(half_edges, key) == 2 && forward_incidence(half_edges, key) * 2 != incidence(
                half_edges,
                key,
            ),
    )
}

/// Counts of edges by their use among accepted faces.
pub struct EdgeCounts {
    /// Edges referenced by exactly one accepted face.
    pub boundary: usize,
    /// Edges referenced by more than two accepted faces.
    pub non_manifold: usize,
    /// Two-face edges whose incident winding is equal rather than opposite.
    pub inconsistent_winding: usize,
}

proof fn lemma_incidence_push(half_edges: Seq<(int, bool)>, edge: (int, bool), key: int)
    ensures
        incidence(half_edges.push(edge), key) == incidence(half_edges, key) + if edge.0 == key {
            1nat
        } else {
            0nat
        },
        forward_incidence(half_edges.push(edge), key) == forward_incidence(half_edges, key)
            + if edge.0 == key && edge.1 {
            1nat
        } else {
            0nat
        },
{
    assert(half_edges.push(edge).drop_last() =~= half_edges);
}

proof fn lemma_forward_le_incidence(half_edges: Seq<(int, bool)>, key: int)
    ensures
        forward_incidence(half_edges, key) <= incidence(half_edges, key),
        incidence(half_edges, key) <= half_edges.len(),
    decreases half_edges.len(),
{
    if half_edges.len() > 0 {
        lemma_forward_le_incidence(half_edges.drop_last(), key);
    }
}

/// The set of keys satisfying a predicate changes by at most the one key
/// whose predicate changed.
proof fn lemma_set_changes_at_one_key(before: spec_fn(int) -> bool, after: spec_fn(int) -> bool, changed: int)
    requires
        Set::new(before).finite(),
        forall|key: int| key != changed ==> #[trigger] before(key) == after(key),
    ensures
        Set::new(after).finite(),
        Set::new(after).len() + (if before(changed) { 1int } else { 0int }) == Set::new(before).len()
            + (if after(changed) { 1int } else { 0int }),
{
    let old_set = Set::new(before);
    if after(changed) {
        assert(Set::new(after) =~= old_set.insert(changed));
    } else {
        assert(Set::new(after) =~= old_set.remove(changed));
    }
}


/// Undirected edges with at least one half-edge.
pub open spec fn used_edges(half_edges: Seq<(int, bool)>) -> Set<int> {
    Set::new(|key: int| incidence(half_edges, key) > 0)
}

proof fn lemma_used_edges_bounded(half_edges: Seq<(int, bool)>)
    ensures
        used_edges(half_edges).finite(),
        used_edges(half_edges).len() <= half_edges.len(),
        boundary_edges(half_edges).finite(),
        boundary_edges(half_edges).len() <= half_edges.len(),
        non_manifold_edges(half_edges).finite(),
        non_manifold_edges(half_edges).len() <= half_edges.len(),
        inconsistent_winding_edges(half_edges).finite(),
        inconsistent_winding_edges(half_edges).len() <= half_edges.len(),
    decreases half_edges.len(),
{
    if half_edges.len() == 0 {
        assert(used_edges(half_edges) =~= Set::empty());
    } else {
        let earlier = half_edges.drop_last();
        lemma_used_edges_bounded(earlier);
        assert(used_edges(half_edges) =~= used_edges(earlier).insert(half_edges.last().0));
    }
    let used = used_edges(half_edges);
    assert(boundary_edges(half_edges).subset_of(used));
    assert(non_manifold_edges(half_edges).subset_of(used));
    assert(inconsistent_winding_edges(half_edges).subset_of(used));
    vstd::set_lib::lemma_len_subset(boundary_edges(half_edges), used);
    vstd::set_lib::lemma_len_subset(non_manifold_edges(half_edges), used);
    vstd::set_lib::lemma_len_subset(inconsistent_winding_edges(half_edges), used);
}

/// The edge table agrees with the half-edges recorded so far.
spec fn table_matches(table: Map<u64, (usize, usize)>, half_edges: Seq<(int, bool)>) -> bool {
    &&& forall|key: u64| #[trigger] table.contains_key(key) <==> incidence(half_edges, key as int) > 0
    &&& forall|key: u64| #[trigger] table.contains_key(key) ==> table[key].0 == forward_incidence(half_edges, key as int)
        && table[key].0 + table[key].1 == incidence(half_edges, key as int)
    &&& forall|key: int| #[trigger] incidence(half_edges, key) > 0 ==> 0 <= key <= u64::MAX
}

/// The running counts agree with the half-edges recorded so far.
spec fn counts_match(counts: EdgeCounts, half_edges: Seq<(int, bool)>) -> bool {
    &&& counts.boundary == boundary_edges(half_edges).len()
    &&& counts.non_manifold == non_manifold_edges(half_edges).len()
    &&& counts.inconsistent_winding == inconsistent_winding_edges(half_edges).len()
}

fn record_half_edge(
    table: &mut HashMap<u64, (usize, usize)>,
    counts: &mut EdgeCounts,
    start: u32,
    end: u32,
    half_edges: Ghost<Seq<(int, bool)>>,
)
    requires
        table_matches(old(table)@, half_edges@),
        counts_match(*old(counts), half_edges@),
        half_edges@.len() + 1 <= usize::MAX,
    ensures
        table_matches(final(table)@, half_edges@.push(half_edge(start, end))),
        counts_match(*final(counts), half_edges@.push(half_edge(start, end))),
{
    let ghost edge = half_edge(start, end);
    let ghost after = half_edges@.push(edge);
    let (low, high, forward) = if start < end {
        (start, end, true)
    } else {
        (end, start, false)
    };
    let key: u64 = (low as u64) * 0x1_0000_0000 + (high as u64);
    assert(key as int == edge.0);
    let (forward_count, backward_count) = match table.get(&key) {
        Some(entry) => *entry,
        None => (0usize, 0usize),
    };
    proof {
        lemma_forward_le_incidence(half_edges@, key as int);
        lemma_used_edges_bounded(half_edges@);
        lemma_incidence_push(half_edges@, edge, key as int);
        assert forall|other: int| other != key as int implies #[trigger] incidence(after, other) == incidence(half_edges@, other)
            && forward_incidence(after, other) == forward_incidence(half_edges@, other) by {
            lemma_incidence_push(half_edges@, edge, other);
        }
    }
    let old_total = forward_count + backward_count;
    let (new_forward, new_backward) = if forward {
        (forward_count + 1, backward_count)
    } else {
        (forward_count, backward_count + 1)
    };
    let new_total = new_forward + new_backward;
    table.insert(key, (new_forward, new_backward));
    proof {
        lemma_set_changes_at_one_key(
            |k: int| incidence(half_edges@, k) == 1,
            |k: int| incidence(after, k) == 1,
            key as int,
        );
        lemma_set_changes_at_one_key(
            |k: int| incidence(half_edges@, k) > 2,
            |k: int| incidence(after, k) > 2,
            key as int,
        );
        lemma_set_changes_at_one_key(
            |k: int| incidence(half_edges@, k) == 2 && forward_incidence(half_edges@, k) * 2 != incidence(half_edges@, k),
            |k: int| incidence(after, k) == 2 && forward_incidence(after, k) * 2 != incidence(after, k),
            key as int,
        );
        lemma_used_edges_bounded(after);
    }
    let was_boundary = old_total == 1;
    let is_boundary = new_total == 1;
    if was_boundary && !is_boundary {
        counts.boundary = counts.boundary - 1;
    } else if is_boundary && !was_boundary {
        counts.boundary = counts.boundary + 1;
    }
    let was_non_manifold = old_total > 2;
    let is_non_manifold = new_total > 2;
    if was_non_manifold && !is_non_manifold {
        counts.non_manifold = counts.non_manifold - 1;
    } else if is_non_manifold && !was_non_manifold {
        counts.non_manifold = counts.non_manifold + 1;
    }
    let was_inconsistent = old_total == 2 && forward_count != backward_count;
    let is_inconsistent = new_total == 2 && new_forward != new_backward;
    if was_inconsistent && !is_inconsistent {
        counts.inconsistent_winding = counts.inconsistent_winding - 1;
    } else if is_inconsistent && !was_inconsistent {
        counts.inconsistent_winding = counts.inconsistent_winding + 1;
    }
    proof {
        let table_after = table@;
        assert forall|k: u64| #[trigger] table_after.contains_key(k) <==> incidence(after, k as int) > 0 by {
            if k != key {
                assert(incidence(after, k as int) == incidence(half_edges@, k as int));
            }
        }
        assert forall|k: u64| #[trigger] table_after.contains_key(k) implies table_after[k].0 == forward_incidence(after, k as int)
            && table_after[k].0 + table_after[k].1 == incidence(after, k as int) by {
            if k != key {
                assert(incidence(after, k as int) == incidence(half_edges@, k as int));
            }
        }
        assert forall|k: int| #[trigger] incidence(after, k) > 0 implies 0 <= k <= u64::MAX by {
            if k != key as int {
                assert(incidence(after, k) == incidence(half_edges@, k));
            }
        }
    }
}


/// A vector of `[u32; 3]` occupies twelve bytes per face and one of
/// `[u64; 3]` twenty-four bytes per vertex; no allocation exceeds
/// `isize::MAX` bytes.
pub open spec fn within_allocation_limit(mesh: Mesh) -> bool {
    &&& mesh.triangles@.len() * 12 <= isize::MAX
    &&& mesh.positions@.len() * 24 <= isize::MAX
}

proof fn lemma_accepted_half_edges_len(mesh: Mesh, verdicts: Seq<FaceVerdict>, count: nat)
    ensures
        accepted_half_edges(mesh, verdicts, count).len() <= 3 * count,
    decreases count,
{
    if count > 0 {
        lemma_accepted_half_edges_len(mesh, verdicts, (count - 1) as nat);
    }
}

/// Counts boundary, non-manifold and inconsistently wound edges among the
/// faces whose verdict is `Accepted`.
pub fn edge_statistics(mesh: &Mesh, verdicts: &Vec<FaceVerdict>) -> (counts: EdgeCounts)
    requires
        verdicts@.len() == mesh.triangles@.len(),
        within_allocation_limit(*mesh),
    ensures
        ({
            let half_edges = accepted_half_edges(*mesh, verdicts@, verdicts@.len());
            &&& counts.boundary == boundary_edges(half_edges).len()
            &&& counts.non_manifold == non_manifold_edges(half_edges).len()
            &&& counts.inconsistent_winding == inconsistent_winding_edges(half_edges).len()
        }),
{
    let face_count = mesh.triangles.len();
    let mut table: HashMap<u64, (usize, usize)> = HashMap::new();
    let mut counts = EdgeCounts { boundary: 0, non_manifold: 0, inconsistent_winding: 0 };
    proof {
        assert(boundary_edges(Seq::empty()) =~= Set::empty());
        assert(non_manifold_edges(Seq::empty()) =~= Set::empty());
        assert(inconsistent_winding_edges(Seq::empty()) =~= Set::empty());
    }
    let mut index: usize = 0;
    while index < face_count
        invariant
            index <= face_count,
            face_count == mesh.triangles@.len(),
            verdicts@.len() == face_count,
            within_allocation_limit(*mesh),
            table_matches(table@, accepted_half_edges(*mesh, verdicts@, index as nat)),
            counts_match(counts, accepted_half_edges(*mesh, verdicts@, index as nat)),
        decreases face_count - index,
    {
        let ghost before = accepted_half_edges(*mesh, verdicts@, index as nat);
        proof {
            lemma_accepted_half_edges_len(*mesh, verdicts@, index as nat);
        }
        if verdicts[index] == FaceVerdict::Accepted {
            let triangle = mesh.triangles[index];
            record_half_edge(&mut table, &mut counts, triangle[0], triangle[1], Ghost(before));
            let ghost first = before.push(half_edge(triangle[0], triangle[1]));
            record_half_edge(&mut table, &mut counts, triangle[1], triangle[2], Ghost(first));
            let ghost second = first.push(half_edge(triangle[1], triangle[2]));
            record_half_edge(&mut table, &mut counts, triangle[2], triangle[0], Ghost(second));
            proof {
                assert(second.push(half_edge(triangle[2], triangle[0])) =~= before + triangle_half_edges(triangle));
            }
        }
        index = index + 1;
    }
    counts
}

} // verus!
