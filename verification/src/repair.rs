use crate::hashing::{blake3_digest, canonical_mesh_bytes, hash_mesh};
use crate::topology::{
    all_face_verdicts, classify_faces, face_verdict, face_verdicts, indices_in_range,
    lemma_face_verdicts_prefix, point_is_finite, repeats_index, sorted_corners,
    within_allocation_limit, FaceVerdict, Mesh,
};
use crate::audit::{
    count_prefix, lemma_verdict_at, tally, topology_report_matches, triangle_has_vertex,
    used_by_accepted, verdict_marks, vertex_is_used, TopologyReport,
};
use vstd::prelude::*;
use vstd::set_lib::{lemma_int_range, lemma_len_subset, set_int_range};

verus! {

/// Corners of the accepted faces among the first `count` faces, in face
/// order and, within a face, in corner order.
pub open spec fn accepted_corners(mesh: Mesh, verdicts: Seq<FaceVerdict>, count: nat) -> Seq<int>
    decreases count,
{
    if count == 0 {
        Seq::empty()
    } else {
        let earlier = accepted_corners(mesh, verdicts, (count - 1) as nat);
        let triangle = mesh.triangles@[count - 1];
        if verdicts[count - 1] == FaceVerdict::Accepted {
            earlier.push(triangle[0] as int).push(triangle[1] as int).push(triangle[2] as int)
        } else {
            earlier
        }
    }
}

/// The distinct entries of a sequence, in order of first appearance.
pub open spec fn first_appearances(items: Seq<int>) -> Seq<int>
    decreases items.len(),
{
    if items.len() == 0 {
        Seq::empty()
    } else {
        let earlier = first_appearances(items.drop_last());
        if earlier.contains(items.last()) {
            earlier
        } else {
            earlier.push(items.last())
        }
    }
}

/// Indices of the accepted faces among the first `count` faces, in order.
pub open spec fn accepted_faces(verdicts: Seq<FaceVerdict>, count: nat) -> Seq<int>
    decreases count,
{
    if count == 0 {
        Seq::empty()
    } else {
        let earlier = accepted_faces(verdicts, (count - 1) as nat);
        if verdicts[count - 1] == FaceVerdict::Accepted {
            earlier.push(count - 1)
        } else {
            earlier
        }
    }
}

/// The source vertices that survive repair, in the order the repaired mesh
/// numbers them: by first use among the corners of accepted faces.
pub open spec fn surviving_vertices(mesh: Mesh, verdicts: Seq<FaceVerdict>) -> Seq<int> {
    first_appearances(accepted_corners(mesh, verdicts, mesh.triangles@.len()))
}

/// The repaired mesh keeps the accepted faces in order, renumbers their
/// corners by `order`, and keeps exactly the positions of `order`.
pub open spec fn is_compaction(
    repaired: Mesh,
    mesh: Mesh,
    order: Seq<int>,
    kept: Seq<int>,
) -> bool {
    &&& repaired.positions@.len() == order.len()
    &&& forall|vertex: int|
        0 <= vertex < order.len() ==> #[trigger] repaired.positions@[vertex]
            == mesh.positions@[order[vertex]]
    &&& repaired.triangles@.len() == kept.len()
    &&& forall|face: int, corner: int|
        0 <= face < kept.len() && 0 <= corner < 3 ==> (#[trigger] repaired.triangles@[face][corner])
            < order.len() && order[repaired.triangles@[face][corner] as int]
            == mesh.triangles@[kept[face]][corner]
}

/// Result of conservative non-welding mesh repair.
pub struct MeshRepairReport {
    /// Repaired mesh containing only accepted faces and referenced vertices.
    pub mesh: Mesh,
    /// Number of removed faces.
    pub removed_face_count: usize,
    /// Number of removed vertices.
    pub removed_vertex_count: usize,
    /// Content hash before repair.
    pub before_hash: [u8; 32],
    /// Content hash after repair.
    pub after_hash: [u8; 32],
}

/// The renumbering table and the positions gathered so far agree with the
/// order in which vertices were first met.
spec fn remap_state(
    table: Seq<Option<u32>>,
    positions: Seq<[u64; 3]>,
    mesh: Mesh,
    order: Seq<int>,
) -> bool {
    &&& table.len() == mesh.positions@.len()
    &&& order.no_duplicates()
    &&& forall|i: int|
        0 <= i < order.len() ==> 0 <= #[trigger] order[i] < table.len() && order[i] <= u32::MAX
    &&& positions.len() == order.len()
    &&& forall|i: int| 0 <= i < order.len() ==> #[trigger] positions[i] == mesh.positions@[order[i]]
    &&& forall|v: int| 0 <= v < table.len() ==> (#[trigger] table[v] is Some <==> order.contains(v))
    &&& forall|v: int|
        0 <= v < table.len() && #[trigger] table[v] is Some ==> table[v]->0 < order.len()
            && order[table[v]->0 as int] == v
}

/// A sequence without repetitions whose entries lie in `0..bound` and miss
/// `fresh` is shorter than `bound`.
proof fn lemma_distinct_entries_bound(order: Seq<int>, bound: int, fresh: int)
    requires
        order.no_duplicates(),
        forall|i: int| 0 <= i < order.len() ==> 0 <= #[trigger] order[i] < bound,
        0 <= fresh < bound,
        !order.contains(fresh),
    ensures
        order.len() < bound,
{
    order.unique_seq_to_set();
    let range = set_int_range(0, bound).remove(fresh);
    lemma_int_range(0, bound);
    assert(order.to_set().subset_of(range)) by {
        assert forall|x: int| order.to_set().contains(x) implies range.contains(x) by {
            let i = choose|i: int| 0 <= i < order.len() && order[i] == x;
            assert(order[i] == x);
        }
    }
    lemma_len_subset(order.to_set(), range);
}

/// A sequence without repetitions whose entries lie in `0..bound` is at
/// most `bound` long.
pub(crate) proof fn lemma_distinct_entries_len(order: Seq<int>, bound: int)
    requires
        order.no_duplicates(),
        0 <= bound,
        forall|i: int| 0 <= i < order.len() ==> 0 <= #[trigger] order[i] < bound,
    ensures
        order.len() <= bound,
{
    order.unique_seq_to_set();
    let range = set_int_range(0, bound);
    lemma_int_range(0, bound);
    assert(order.to_set().subset_of(range)) by {
        assert forall|x: int| order.to_set().contains(x) implies range.contains(x) by {
            let i = choose|i: int| 0 <= i < order.len() && order[i] == x;
            assert(order[i] == x);
        }
    }
    lemma_len_subset(order.to_set(), range);
}

/// The order after meeting `vertex`: unchanged when it was met before,
/// extended by it otherwise.
spec fn meet(order: Seq<int>, vertex: int) -> Seq<int> {
    if order.contains(vertex) {
        order
    } else {
        order.push(vertex)
    }
}

fn remap_vertex(
    old_index: u32,
    mesh: &Mesh,
    table: &mut Vec<Option<u32>>,
    positions: &mut Vec<[u64; 3]>,
    order: Ghost<Seq<int>>,
) -> (mapped: u32)
    requires
        remap_state(old(table)@, old(positions)@, *mesh, order@),
        old_index < mesh.positions@.len(),
    ensures
        remap_state(final(table)@, final(positions)@, *mesh, meet(order@, old_index as int)),
        mapped < meet(order@, old_index as int).len(),
        meet(order@, old_index as int)[mapped as int] == old_index,
{
    match table[old_index as usize] {
        Some(mapped) => {
            assert(order@.contains(old_index as int));
            mapped
        },
        None => {
            let ghost after = order@.push(old_index as int);
            proof {
                lemma_distinct_entries_bound(order@, 0x1_0000_0000, old_index as int);
            }
            let mapped = positions.len() as u32;
            positions.push(mesh.positions[old_index as usize]);
            table.set(old_index as usize, Some(mapped));
            proof {
                assert(after.no_duplicates()) by {
                    assert forall|i: int, j: int|
                        0 <= i < after.len() && 0 <= j < after.len() && i != j implies after[i]
                        != after[j] by {
                        if i == order@.len() {
                            assert(!order@.contains(after[j]) || after[i] != after[j]);
                        } else if j == order@.len() {
                            assert(!order@.contains(after[i]) || after[i] != after[j]);
                        }
                    }
                }
                assert forall|v: int| 0 <= v < table@.len() implies (#[trigger] table@[v] is Some
                    <==> after.contains(v)) by {
                    if v != old_index as int {
                        if after.contains(v) {
                            let i = choose|i: int| 0 <= i < after.len() && after[i] == v;
                            assert(i < order@.len());
                            assert(order@[i] == v);
                        }
                        if order@.contains(v) {
                            let i = choose|i: int| 0 <= i < order@.len() && order@[i] == v;
                            assert(after[i] == v);
                        }
                    } else {
                        assert(after[order@.len() as int] == v);
                    }
                }
            }
            mapped
        },
    }
}

proof fn lemma_first_appearances_contents(items: Seq<int>)
    ensures
        first_appearances(items).no_duplicates(),
        forall|x: int| #[trigger] first_appearances(items).contains(x) <==> items.contains(x),
    decreases items.len(),
{
    if items.len() > 0 {
        let rest = items.drop_last();
        lemma_first_appearances_contents(rest);
        let earlier = first_appearances(rest);
        assert forall|x: int| #[trigger] first_appearances(items).contains(x) <==> items.contains(
            x,
        ) by {
            if items.contains(x) {
                let i = choose|i: int| 0 <= i < items.len() && items[i] == x;
                if i < items.len() - 1 {
                    assert(rest[i] == x);
                }
            }
            if rest.contains(x) {
                let i = choose|i: int| 0 <= i < rest.len() && rest[i] == x;
                assert(items[i] == x);
            }
            if !earlier.contains(items.last()) && first_appearances(items).contains(x) {
                let i = choose|i: int|
                    0 <= i < first_appearances(items).len() && first_appearances(items)[i] == x;
                if i < earlier.len() {
                    assert(earlier[i] == x);
                }
            }
            if !earlier.contains(items.last()) && earlier.contains(x) {
                let i = choose|i: int| 0 <= i < earlier.len() && earlier[i] == x;
                assert(first_appearances(items)[i] == x);
            }
            if !earlier.contains(items.last()) && x == items.last() {
                assert(first_appearances(items)[earlier.len() as int] == x);
            }
        }
        if !earlier.contains(items.last()) {
            let after = earlier.push(items.last());
            assert forall|i: int, j: int|
                0 <= i < after.len() && 0 <= j < after.len() && i != j implies after[i]
                != after[j] by {
                if i == earlier.len() {
                    assert(!earlier.contains(after[j]) || after[i] != after[j]);
                } else if j == earlier.len() {
                    assert(!earlier.contains(after[i]) || after[i] != after[j]);
                }
            }
        }
    }
}

/// Removes invalid, non-finite, degenerate, and duplicate faces and compacts
/// vertices. It never welds vertices, fills holes, or changes source
/// geometry. `negligible_area[face]` tells whether the face's doubled area
/// is within the audit's area threshold.
pub fn repair_mesh_conservative(mesh: &Mesh, negligible_area: &Vec<bool>) -> (report:
    MeshRepairReport)
    requires
        negligible_area@.len() == mesh.triangles@.len(),
        within_allocation_limit(*mesh),
    ensures
        ({
            let verdicts = all_face_verdicts(*mesh, negligible_area@);
            let order = surviving_vertices(*mesh, verdicts);
            let kept = accepted_faces(verdicts, mesh.triangles@.len());
            &&& is_compaction(report.mesh, *mesh, order, kept)
            &&& report.removed_face_count == mesh.triangles@.len() - kept.len()
            &&& report.removed_vertex_count == mesh.positions@.len() - order.len()
            &&& report.before_hash@ == blake3_digest(canonical_mesh_bytes(*mesh))
            &&& report.after_hash@ == blake3_digest(canonical_mesh_bytes(report.mesh))
        }),
{
    let vertex_count = mesh.positions.len();
    let face_count = mesh.triangles.len();
    let verdicts = classify_faces(mesh, negligible_area);
    proof {
        lemma_face_verdicts_prefix(*mesh, negligible_area@, face_count as nat, face_count as nat);
    }
    let ghost all = verdicts@;
    let before_hash = hash_mesh(mesh);

    let mut table: Vec<Option<u32>> = Vec::new();
    let mut vertex: usize = 0;
    while vertex < vertex_count
        invariant
            vertex <= vertex_count,
            table@.len() == vertex,
            forall|v: int| 0 <= v < vertex ==> #[trigger] table@[v] is None,
        decreases vertex_count - vertex,
    {
        table.push(None);
        vertex = vertex + 1;
    }
    let mut positions: Vec<[u64; 3]> = Vec::new();
    let mut triangles: Vec<[u32; 3]> = Vec::new();
    let mut face: usize = 0;
    while face < face_count
        invariant
            face <= face_count,
            face_count == mesh.triangles@.len(),
            vertex_count == mesh.positions@.len(),
            negligible_area@.len() == face_count,
            verdicts@ == all,
            all == all_face_verdicts(*mesh, negligible_area@),
            all.len() == face_count,
            remap_state(
                table@,
                positions@,
                *mesh,
                first_appearances(accepted_corners(*mesh, all, face as nat)),
            ),
            triangles@.len() == accepted_faces(all, face as nat).len(),
            triangles@.len() <= face,
            forall|f: int, corner: int|
                0 <= f < triangles@.len() && 0 <= corner < 3 ==> (#[trigger] triangles@[f][corner])
                    < first_appearances(accepted_corners(*mesh, all, face as nat)).len()
                    && first_appearances(accepted_corners(*mesh, all, face as nat))[triangles@[f][corner] as int]
                    == mesh.triangles@[accepted_faces(all, face as nat)[f]][corner],
        decreases face_count - face,
    {
        let ghost stream = accepted_corners(*mesh, all, face as nat);
        let ghost order = first_appearances(stream);
        proof {
            lemma_verdict_at(*mesh, negligible_area@, face as int);
        }
        if verdicts[face] == FaceVerdict::Accepted {
            let triangle = mesh.triangles[face];
            let ghost s1 = stream.push(triangle[0] as int);
            let ghost s2 = s1.push(triangle[1] as int);
            let ghost s3 = s2.push(triangle[2] as int);
            proof {
                assert(s1.drop_last() =~= stream);
                assert(s2.drop_last() =~= s1);
                assert(s3.drop_last() =~= s2);
            }
            let a = remap_vertex(triangle[0], mesh, &mut table, &mut positions, Ghost(order));
            let b = remap_vertex(
                triangle[1],
                mesh,
                &mut table,
                &mut positions,
                Ghost(first_appearances(s1)),
            );
            let c = remap_vertex(
                triangle[2],
                mesh,
                &mut table,
                &mut positions,
                Ghost(first_appearances(s2)),
            );
            let ghost order3 = first_appearances(s3);
            proof {
                assert(first_appearances(s1) == meet(order, triangle[0] as int));
                assert(first_appearances(s2) == meet(first_appearances(s1), triangle[1] as int));
                assert(order3 == meet(first_appearances(s2), triangle[2] as int));
                assert(accepted_corners(*mesh, all, (face + 1) as nat) == s3);
                assert(forall|i: int|
                    0 <= i < first_appearances(s1).len() ==> #[trigger] order3[i]
                        == first_appearances(s1)[i]);
                assert(forall|i: int| 0 <= i < order.len() ==> #[trigger] order3[i] == order[i]);
            }
            triangles.push([a, b, c]);
        }
        face = face + 1;
    }
    let ghost order = surviving_vertices(*mesh, all);
    let ghost kept = accepted_faces(all, face_count as nat);
    proof {
        lemma_distinct_entries_len(order, vertex_count as int);
    }
    let repaired = Mesh { positions, triangles };
    let after_hash = hash_mesh(&repaired);
    let removed_face_count = face_count - repaired.triangles.len();
    let removed_vertex_count = vertex_count - repaired.positions.len();
    MeshRepairReport {
        mesh: repaired,
        removed_face_count,
        removed_vertex_count,
        before_hash,
        after_hash,
    }
}

/// Every corner of a triangle appears among its sorted corners and the
/// other way round.
proof fn lemma_sorted_corners_members(t: [u32; 3], u: [u32; 3])
    ensures
        sorted_corners(t) == sorted_corners(u) ==> (triangle_has_vertex(t, u[0] as int)
            && triangle_has_vertex(t, u[1] as int) && triangle_has_vertex(t, u[2] as int)),
        (!repeats_index(t) && !repeats_index(u) && triangle_has_vertex(u, t[0] as int)
            && triangle_has_vertex(u, t[1] as int) && triangle_has_vertex(u, t[2] as int))
            ==> sorted_corners(t) == sorted_corners(u),
{
}

proof fn lemma_accepted_faces(verdicts: Seq<FaceVerdict>, count: nat)
    requires
        count <= verdicts.len(),
    ensures
        accepted_faces(verdicts, count).len() <= count,
        forall|j: int|
            0 <= j < accepted_faces(verdicts, count).len() ==> 0 <= #[trigger] accepted_faces(
                verdicts,
                count,
            )[j] < count && verdicts[accepted_faces(verdicts, count)[j]]
                == FaceVerdict::Accepted,
        forall|i: int, j: int|
            0 <= i < j < accepted_faces(verdicts, count).len() ==> #[trigger] accepted_faces(
                verdicts,
                count,
            )[i] < #[trigger] accepted_faces(verdicts, count)[j],
    decreases count,
{
    if count > 0 {
        lemma_accepted_faces(verdicts, (count - 1) as nat);
    }
}

/// Auditing the repaired mesh accepts every one of its faces, provided each
/// kept face is judged negligible in area exactly when its source face was:
/// conservative repair removes every reason for removal.
pub proof fn lemma_repaired_faces_accepted(
    mesh: Mesh,
    negligible_area: Seq<bool>,
    repaired: Mesh,
    repaired_negligible_area: Seq<bool>,
)
    requires
        negligible_area.len() == mesh.triangles@.len(),
        is_compaction(
            repaired,
            mesh,
            surviving_vertices(mesh, all_face_verdicts(mesh, negligible_area)),
            accepted_faces(all_face_verdicts(mesh, negligible_area), mesh.triangles@.len()),
        ),
        repaired_negligible_area.len() == repaired.triangles@.len(),
        forall|face: int|
            0 <= face < repaired.triangles@.len() ==> #[trigger] repaired_negligible_area[face]
                == negligible_area[accepted_faces(
                all_face_verdicts(mesh, negligible_area),
                mesh.triangles@.len(),
            )[face]],
    ensures
        all_face_verdicts(repaired, repaired_negligible_area).len() == repaired.triangles@.len(),
        forall|face: int|
            0 <= face < repaired.triangles@.len() ==> #[trigger] all_face_verdicts(
                repaired,
                repaired_negligible_area,
            )[face] == FaceVerdict::Accepted,
{
    lemma_repaired_prefix_accepted(
        mesh,
        negligible_area,
        repaired,
        repaired_negligible_area,
        repaired.triangles@.len(),
    );
}

/// Every vertex of the repaired mesh is a corner of one of its faces, which
/// the audit of the repaired mesh accepts, provided each kept face is judged
/// negligible in area exactly when its source face was: repair leaves no
/// isolated vertex behind.
pub proof fn lemma_repaired_vertices_are_used(
    mesh: Mesh,
    negligible_area: Seq<bool>,
    repaired: Mesh,
    repaired_negligible_area: Seq<bool>,
)
    requires
        negligible_area.len() == mesh.triangles@.len(),
        is_compaction(
            repaired,
            mesh,
            surviving_vertices(mesh, all_face_verdicts(mesh, negligible_area)),
            accepted_faces(all_face_verdicts(mesh, negligible_area), mesh.triangles@.len()),
        ),
        repaired_negligible_area.len() == repaired.triangles@.len(),
        forall|face: int|
            0 <= face < repaired.triangles@.len() ==> #[trigger] repaired_negligible_area[face]
                == negligible_area[accepted_faces(
                all_face_verdicts(mesh, negligible_area),
                mesh.triangles@.len(),
            )[face]],
    ensures
        forall|vertex: int|
            0 <= vertex < repaired.positions@.len() ==> #[trigger] vertex_is_used(
                repaired,
                all_face_verdicts(repaired, repaired_negligible_area),
                vertex,
            ),
{
    let verdicts = all_face_verdicts(mesh, negligible_area);
    let n = mesh.triangles@.len();
    let order = surviving_vertices(mesh, verdicts);
    let kept = accepted_faces(verdicts, n);
    let corners = accepted_corners(mesh, verdicts, n);
    let again = all_face_verdicts(repaired, repaired_negligible_area);
    lemma_face_verdicts_prefix(mesh, negligible_area, n, n);
    lemma_repaired_faces_accepted(mesh, negligible_area, repaired, repaired_negligible_area);
    lemma_first_appearances_contents(corners);
    lemma_accepted_corners_layout(mesh, verdicts, n);
    assert forall|vertex: int| 0 <= vertex < repaired.positions@.len() implies #[trigger] vertex_is_used(
        repaired,
        again,
        vertex,
    ) by {
        assert(order.contains(order[vertex]));
        let index = choose|index: int| 0 <= index < corners.len() && corners[index] == order[vertex];
        let face = index / 3;
        let corner = index % 3;
        assert(index == 3 * face + corner);
        assert(0 <= face < kept.len());
        assert(corners[3 * face + corner] == mesh.triangles@[kept[face]][corner] as int);
        let renamed = repaired.triangles@[face][corner] as int;
        assert(order[renamed] == mesh.triangles@[kept[face]][corner]);
        assert(renamed == vertex) by {
            if renamed != vertex {
                assert(order.no_duplicates());
            }
        }
        assert(again[face] == FaceVerdict::Accepted);
        assert(triangle_has_vertex(repaired.triangles@[face], vertex));
        lemma_used_by_accepted_face(repaired, again, repaired.triangles@.len(), face, vertex);
    }
}

/// A corner of an accepted face among the first `count` faces is used.
proof fn lemma_used_by_accepted_face(
    mesh: Mesh,
    verdicts: Seq<FaceVerdict>,
    count: nat,
    face: int,
    vertex: int,
)
    requires
        0 <= face < count,
        verdicts[face] == FaceVerdict::Accepted,
        triangle_has_vertex(mesh.triangles@[face], vertex),
    ensures
        used_by_accepted(mesh, verdicts, count, vertex),
    decreases count,
{
    if face < count - 1 {
        lemma_used_by_accepted_face(mesh, verdicts, (count - 1) as nat, face, vertex);
    }
}

proof fn lemma_repaired_prefix_accepted(
    mesh: Mesh,
    negligible_area: Seq<bool>,
    repaired: Mesh,
    repaired_negligible_area: Seq<bool>,
    count: nat,
)
    requires
        negligible_area.len() == mesh.triangles@.len(),
        is_compaction(
            repaired,
            mesh,
            surviving_vertices(mesh, all_face_verdicts(mesh, negligible_area)),
            accepted_faces(all_face_verdicts(mesh, negligible_area), mesh.triangles@.len()),
        ),
        repaired_negligible_area.len() == repaired.triangles@.len(),
        forall|face: int|
            0 <= face < repaired.triangles@.len() ==> #[trigger] repaired_negligible_area[face]
                == negligible_area[accepted_faces(
                all_face_verdicts(mesh, negligible_area),
                mesh.triangles@.len(),
            )[face]],
        count <= repaired.triangles@.len(),
    ensures
        face_verdicts(repaired, repaired_negligible_area, count).len() == count,
        forall|face: int|
            0 <= face < count ==> #[trigger] face_verdicts(
                repaired,
                repaired_negligible_area,
                count,
            )[face] == FaceVerdict::Accepted,
    decreases count,
{
    if count > 0 {
        let n = mesh.triangles@.len();
        let verdicts = all_face_verdicts(mesh, negligible_area);
        let order = surviving_vertices(mesh, verdicts);
        let kept = accepted_faces(verdicts, n);
        lemma_repaired_prefix_accepted(
            mesh,
            negligible_area,
            repaired,
            repaired_negligible_area,
            (count - 1) as nat,
        );
        lemma_face_verdicts_prefix(mesh, negligible_area, n, n);
        lemma_accepted_faces(verdicts, n);
        lemma_first_appearances_contents(accepted_corners(mesh, verdicts, n));
        let earlier = face_verdicts(repaired, repaired_negligible_area, (count - 1) as nat);
        let j = count - 1;
        let t = repaired.triangles@[j];
        let source = kept[j];
        let u = mesh.triangles@[source];
        lemma_verdict_at(mesh, negligible_area, source);
        assert(t[0] < order.len() && order[t[0] as int] == u[0]);
        assert(t[1] < order.len() && order[t[1] as int] == u[1]);
        assert(t[2] < order.len() && order[t[2] as int] == u[2]);
        assert(repaired.positions@[t[0] as int] == mesh.positions@[u[0] as int]);
        assert(repaired.positions@[t[1] as int] == mesh.positions@[u[1] as int]);
        assert(repaired.positions@[t[2] as int] == mesh.positions@[u[2] as int]);
        assert(indices_in_range(t, repaired.positions@.len() as int));
        assert(!repeats_index(t));
        assert(!repaired_negligible_area[j]);
        assert forall|other: int|
            0 <= other < j && earlier[other] == FaceVerdict::Accepted implies #[trigger] sorted_corners(
                repaired.triangles@[other],
            ) != sorted_corners(t) by {
            let t2 = repaired.triangles@[other];
            let u2 = mesh.triangles@[kept[other]];
            lemma_verdict_at(mesh, negligible_area, kept[other]);
            assert(t2[0] < order.len() && order[t2[0] as int] == u2[0]);
            assert(t2[1] < order.len() && order[t2[1] as int] == u2[1]);
            assert(t2[2] < order.len() && order[t2[2] as int] == u2[2]);
            assert(!repeats_index(t2));
            if sorted_corners(t2) == sorted_corners(t) {
                lemma_sorted_corners_members(t, t2);
                assert(triangle_has_vertex(u, u2[0] as int));
                assert(triangle_has_vertex(u, u2[1] as int));
                assert(triangle_has_vertex(u, u2[2] as int));
                lemma_sorted_corners_members(u2, u);
                assert(kept[other] < kept[j]);
                let prior = face_verdicts(mesh, negligible_area, source as nat);
                lemma_face_verdicts_prefix(mesh, negligible_area, n, source as nat);
                assert(prior[kept[other]] == verdicts[kept[other]]);
                assert(sorted_corners(mesh.triangles@[kept[other]]) == sorted_corners(u));
                assert(face_verdict(mesh, negligible_area, prior, source) != FaceVerdict::Accepted);
            }
        }
        assert(face_verdict(repaired, repaired_negligible_area, earlier, j) == FaceVerdict::Accepted);
    }
}

proof fn lemma_all_accepted_faces(verdicts: Seq<FaceVerdict>, count: nat)
    requires
        count <= verdicts.len(),
        forall|f: int| 0 <= f < count ==> #[trigger] verdicts[f] == FaceVerdict::Accepted,
    ensures
        accepted_faces(verdicts, count) == Seq::new(count, |j: int| j),
    decreases count,
{
    if count > 0 {
        lemma_all_accepted_faces(verdicts, (count - 1) as nat);
        assert(accepted_faces(verdicts, count) =~= Seq::new(count, |j: int| j));
    } else {
        assert(accepted_faces(verdicts, count) =~= Seq::new(count, |j: int| j));
    }
}

proof fn lemma_accepted_corners_layout(mesh: Mesh, verdicts: Seq<FaceVerdict>, count: nat)
    requires
        count <= verdicts.len(),
        count <= mesh.triangles@.len(),
    ensures
        accepted_corners(mesh, verdicts, count).len() == 3 * accepted_faces(verdicts, count).len(),
        forall|j: int, c: int|
            0 <= j < accepted_faces(verdicts, count).len() && 0 <= c < 3 ==> #[trigger] accepted_corners(
                mesh,
                verdicts,
                count,
            )[3 * j + c] == mesh.triangles@[accepted_faces(verdicts, count)[j]][c] as int,
    decreases count,
{
    if count > 0 {
        lemma_accepted_corners_layout(mesh, verdicts, (count - 1) as nat);
        let before = accepted_corners(mesh, verdicts, (count - 1) as nat);
        let kept_before = accepted_faces(verdicts, (count - 1) as nat);
        let corners = accepted_corners(mesh, verdicts, count);
        let kept = accepted_faces(verdicts, count);
        assert forall|j: int, c: int| 0 <= j < kept.len() && 0 <= c < 3 implies #[trigger] corners[3
            * j + c] == mesh.triangles@[kept[j]][c] as int by {
            if j < kept_before.len() {
                assert(kept[j] == kept_before[j]);
                assert(corners[3 * j + c] == before[3 * j + c]);
            } else {
                assert(kept[j] == count - 1);
                let t = mesh.triangles@[count - 1];
                assert(corners == before.push(t[0] as int).push(t[1] as int).push(t[2] as int));
                if c == 0 {
                    assert(corners[3 * j + c] == t[0] as int);
                } else if c == 1 {
                    assert(corners[3 * j + c] == t[1] as int);
                } else {
                    assert(corners[3 * j + c] == t[2] as int);
                }
            }
        }
    }
}

/// Distinct entries in order of first appearance commute with a map that
/// is one-to-one on the entries.
proof fn lemma_first_appearances_map(items: Seq<int>, f: spec_fn(int) -> int)
    requires
        forall|i: int, j: int|
            0 <= i < items.len() && 0 <= j < items.len() && f(#[trigger] items[i]) == f(
                #[trigger] items[j],
            ) ==> items[i] == items[j],
    ensures
        first_appearances(items.map_values(f)) == first_appearances(items).map_values(f),
    decreases items.len(),
{
    if items.len() > 0 {
        let rest = items.drop_last();
        let last = items.last();
        assert(items.map_values(f).drop_last() =~= rest.map_values(f));
        assert forall|i: int, j: int|
            0 <= i < rest.len() && 0 <= j < rest.len() && f(#[trigger] rest[i]) == f(
                #[trigger] rest[j],
            ) implies rest[i] == rest[j] by {
            assert(items[i] == rest[i] && items[j] == rest[j]);
        }
        lemma_first_appearances_map(rest, f);
        lemma_first_appearances_contents(rest);
        let earlier = first_appearances(rest);
        let mapped = earlier.map_values(f);
        assert(mapped.contains(f(last)) == earlier.contains(last)) by {
            if mapped.contains(f(last)) {
                let k = choose|k: int| 0 <= k < mapped.len() && mapped[k] == f(last);
                assert(earlier.contains(earlier[k]));
                assert(rest.contains(earlier[k]));
                let i = choose|i: int| 0 <= i < rest.len() && rest[i] == earlier[k];
                assert(items[i] == earlier[k]);
                assert(items[items.len() - 1] == last);
                assert(earlier[k] == last);
            }
            if earlier.contains(last) {
                let k = choose|k: int| 0 <= k < earlier.len() && earlier[k] == last;
                assert(mapped[k] == f(last));
            }
        }
        if !earlier.contains(last) {
            assert(earlier.push(last).map_values(f) =~= mapped.push(f(last)));
        }
    }
}

/// Repair removes exactly the faces that the audit of the same mesh, with
/// the same negligible-area answers, does not accept: its removed-face count
/// is the audit's face count less its accepted-face count.
pub proof fn lemma_removed_faces_match_audit(
    mesh: Mesh,
    negligible_area: Seq<bool>,
    audit: TopologyReport,
    repair: MeshRepairReport,
)
    requires
        negligible_area.len() == mesh.triangles@.len(),
        topology_report_matches(audit, mesh, negligible_area),
        repair.removed_face_count == mesh.triangles@.len() - accepted_faces(
            all_face_verdicts(mesh, negligible_area),
            mesh.triangles@.len(),
        ).len(),
    ensures
        repair.removed_face_count == audit.face_count - audit.accepted_face_count,
{
    let n = mesh.triangles@.len();
    let verdicts = all_face_verdicts(mesh, negligible_area);
    lemma_face_verdicts_prefix(mesh, negligible_area, n, n);
    lemma_accepted_faces_counted(verdicts, n);
}

/// The accepted faces among the first `count` are as many as the accepted
/// marks among them.
proof fn lemma_accepted_faces_counted(verdicts: Seq<FaceVerdict>, count: nat)
    requires
        count <= verdicts.len(),
    ensures
        accepted_faces(verdicts, count).len() == count_prefix(
            verdict_marks(verdicts, FaceVerdict::Accepted),
            count,
        ),
    decreases count,
{
    if count > 0 {
        lemma_accepted_faces_counted(verdicts, (count - 1) as nat);
    }
}

/// Running the repair on its own output changes nothing, when every face of
/// the output is again judged by the same negligible-area test.
pub proof fn lemma_repair_is_idempotent(
    mesh: Mesh,
    negligible_area: Seq<bool>,
    repaired: Mesh,
    repaired_negligible_area: Seq<bool>,
    twice: Mesh,
)
    requires
        negligible_area.len() == mesh.triangles@.len(),
        is_compaction(
            repaired,
            mesh,
            surviving_vertices(mesh, all_face_verdicts(mesh, negligible_area)),
            accepted_faces(all_face_verdicts(mesh, negligible_area), mesh.triangles@.len()),
        ),
        repaired_negligible_area.len() == repaired.triangles@.len(),
        forall|face: int|
            0 <= face < repaired.triangles@.len() ==> #[trigger] repaired_negligible_area[face]
                == negligible_area[accepted_faces(
                all_face_verdicts(mesh, negligible_area),
                mesh.triangles@.len(),
            )[face]],
        is_compaction(
            twice,
            repaired,
            surviving_vertices(repaired, all_face_verdicts(repaired, repaired_negligible_area)),
            accepted_faces(
                all_face_verdicts(repaired, repaired_negligible_area),
                repaired.triangles@.len(),
            ),
        ),
    ensures
        twice.positions@ == repaired.positions@,
        twice.triangles@.len() == repaired.triangles@.len(),
        forall|face: int, corner: int|
            0 <= face < repaired.triangles@.len() && 0 <= corner < 3 ==> #[trigger] twice.triangles@[face][corner]
                == repaired.triangles@[face][corner],
{
    let n = mesh.triangles@.len();
    let k = repaired.triangles@.len();
    let verdicts = all_face_verdicts(mesh, negligible_area);
    let order = surviving_vertices(mesh, verdicts);
    let kept = accepted_faces(verdicts, n);
    let stream = accepted_corners(mesh, verdicts, n);
    let m = order.len();
    lemma_repaired_faces_accepted(mesh, negligible_area, repaired, repaired_negligible_area);
    let second = all_face_verdicts(repaired, repaired_negligible_area);
    lemma_all_accepted_faces(second, k);
    let identity = Seq::new(k, |j: int| j);
    assert(accepted_faces(second, k) == identity);
    let stream2 = accepted_corners(repaired, second, k);
    lemma_face_verdicts_prefix(mesh, negligible_area, n, n);
    lemma_accepted_corners_layout(mesh, verdicts, n);
    lemma_accepted_corners_layout(repaired, second, k);
    lemma_first_appearances_contents(stream);
    let f = |x: int| if 0 <= x < m { order[x] } else { -1 };
    assert forall|i: int, j: int|
        0 <= i < stream2.len() && 0 <= j < stream2.len() && f(#[trigger] stream2[i]) == f(
            #[trigger] stream2[j],
        ) implies stream2[i] == stream2[j] by {
        let fi = i / 3;
        let ci = i % 3;
        let fj = j / 3;
        let cj = j % 3;
        assert(i == 3 * fi + ci);
        assert(j == 3 * fj + cj);
        assert(identity[fi] == fi);
        assert(identity[fj] == fj);
        assert(stream2[i] == repaired.triangles@[fi][ci] as int);
        assert(stream2[j] == repaired.triangles@[fj][cj] as int);
        assert(repaired.triangles@[fi][ci] < m);
        assert(repaired.triangles@[fj][cj] < m);
    }
    assert(stream2.map_values(f) =~= stream) by {
        assert forall|i: int| 0 <= i < stream.len() implies #[trigger] stream2.map_values(f)[i]
            == stream[i] by {
            let fi = i / 3;
            let ci = i % 3;
            assert(i == 3 * fi + ci);
            assert(identity[fi] == fi);
            assert(stream2[i] == repaired.triangles@[fi][ci] as int);
            assert(repaired.triangles@[fi][ci] < m);
            assert(order[repaired.triangles@[fi][ci] as int] == mesh.triangles@[kept[fi]][ci]);
        }
    }
    lemma_first_appearances_map(stream2, f);
    let order2 = first_appearances(stream2);
    lemma_first_appearances_contents(stream2);
    assert(order2.map_values(f) == order);
    let vertex_identity = Seq::new(m, |v: int| v);
    assert(order2 =~= vertex_identity) by {
        assert forall|v: int| 0 <= v < m implies #[trigger] order2[v] == v by {
            assert(order2.contains(order2[v]));
            assert(stream2.contains(order2[v]));
            let i = choose|i: int| 0 <= i < stream2.len() && stream2[i] == order2[v];
            let fi = i / 3;
            let ci = i % 3;
            assert(i == 3 * fi + ci);
            assert(identity[fi] == fi);
            assert(stream2[i] == repaired.triangles@[fi][ci] as int);
            assert(0 <= order2[v] < m);
            assert(f(order2[v]) == order[v]);
            assert(order[order2[v]] == order[v]);
        }
    }
    assert(twice.positions@ =~= repaired.positions@) by {
        assert forall|v: int| 0 <= v < m implies #[trigger] twice.positions@[v] == repaired.positions@[v] by {
            assert(vertex_identity[v] == v);
        }
    }
    assert forall|face: int, corner: int|
        0 <= face < k && 0 <= corner < 3 implies #[trigger] twice.triangles@[face][corner]
            == repaired.triangles@[face][corner] by {
        assert(identity[face] == face);
        assert(twice.triangles@[face][corner] < m);
        assert(vertex_identity[twice.triangles@[face][corner] as int] == twice.triangles@[face][corner]);
    }
}

} // verus!
