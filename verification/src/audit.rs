use crate::flags::{MeshFaceFlags, MeshVertexFlags};
use crate::topology::{
    accepted_half_edges, all_face_verdicts, boundary_edges, classify_faces, edge_statistics,
    face_verdict, face_verdicts, inconsistent_winding_edges, indices_in_range,
    lemma_face_verdicts_prefix, non_manifold_edges, point_finite, point_is_finite,
    repeats_index, sorted_corners, within_allocation_limit, FaceVerdict, Mesh,
};
use crate::union_find::{connected, DisjointSet};
use vstd::prelude::*;

verus! {

/// Number of `true` entries among the first `len` marks.
pub open spec fn count_prefix(marks: Seq<bool>, len: nat) -> nat
    decreases len,
{
    if len == 0 {
        0
    } else {
        count_prefix(marks, (len - 1) as nat) + if marks[len - 1] {
            1nat
        } else {
            0nat
        }
    }
}

/// Number of `true` entries.
pub open spec fn tally(marks: Seq<bool>) -> nat {
    count_prefix(marks, marks.len())
}

/// Marks the faces whose verdict is `kind`.
pub open spec fn verdict_marks(verdicts: Seq<FaceVerdict>, kind: FaceVerdict) -> Seq<bool> {
    Seq::new(verdicts.len(), |index: int| verdicts[index] == kind)
}

/// The stable face flag that records a verdict; accepted faces carry none.
pub open spec fn face_flag_bits(verdict: FaceVerdict) -> u32 {
    match verdict {
        FaceVerdict::InvalidIndex => 1,
        FaceVerdict::NonFiniteVertex => 2,
        FaceVerdict::Degenerate => 4,
        FaceVerdict::Duplicate => 8,
        FaceVerdict::Accepted => 0,
    }
}

/// A triangle names `vertex` as one of its corners.
pub open spec fn triangle_has_vertex(triangle: [u32; 3], vertex: int) -> bool {
    triangle[0] == vertex || triangle[1] == vertex || triangle[2] == vertex
}

/// `vertex` is a corner of an accepted face among the first `count` faces.
pub open spec fn used_by_accepted(
    mesh: Mesh,
    verdicts: Seq<FaceVerdict>,
    count: nat,
    vertex: int,
) -> bool
    decreases count,
{
    if count == 0 {
        false
    } else {
        ||| used_by_accepted(mesh, verdicts, (count - 1) as nat, vertex)
        ||| (verdicts[count - 1] == FaceVerdict::Accepted && triangle_has_vertex(
            mesh.triangles@[count - 1],
            vertex,
        ))
    }
}

/// `vertex` is a corner of some accepted face.
pub open spec fn vertex_is_used(mesh: Mesh, verdicts: Seq<FaceVerdict>, vertex: int) -> bool {
    used_by_accepted(mesh, verdicts, mesh.triangles@.len(), vertex)
}

/// The stable vertex flag: non-finite vertices are flagged as such, finite
/// vertices that no accepted face uses as isolated.
pub open spec fn vertex_flag_bits(mesh: Mesh, verdicts: Seq<FaceVerdict>, vertex: int) -> u32 {
    if !point_is_finite(mesh.positions@[vertex]) {
        1
    } else if !vertex_is_used(mesh, verdicts, vertex) {
        2
    } else {
        0
    }
}

/// Marks the vertices with a non-finite coordinate.
pub open spec fn non_finite_marks(mesh: Mesh) -> Seq<bool> {
    Seq::new(mesh.positions@.len(), |vertex: int| !point_is_finite(mesh.positions@[vertex]))
}

/// Marks the finite vertices that no accepted face uses.
pub open spec fn isolated_marks(mesh: Mesh, verdicts: Seq<FaceVerdict>) -> Seq<bool> {
    Seq::new(
        mesh.positions@.len(),
        |vertex: int|
            point_is_finite(mesh.positions@[vertex]) && !vertex_is_used(mesh, verdicts, vertex),
    )
}

/// The corner links of the accepted faces among the first `count` faces:
/// each accepted face joins its first corner to its second and its second to
/// its third.
pub open spec fn accepted_links(mesh: Mesh, verdicts: Seq<FaceVerdict>, count: nat) -> Seq<
    (int, int),
>
    decreases count,
{
    if count == 0 {
        Seq::empty()
    } else {
        let earlier = accepted_links(mesh, verdicts, (count - 1) as nat);
        let triangle = mesh.triangles@[count - 1];
        if verdicts[count - 1] == FaceVerdict::Accepted {
            earlier.push((triangle[0] as int, triangle[1] as int)).push(
                (triangle[1] as int, triangle[2] as int),
            )
        } else {
            earlier
        }
    }
}

/// A used vertex connected to no lower-numbered used vertex: the lowest
/// vertex of its connected component.
pub open spec fn is_component_representative(
    mesh: Mesh,
    verdicts: Seq<FaceVerdict>,
    vertex: int,
) -> bool {
    &&& vertex_is_used(mesh, verdicts, vertex)
    &&& forall|other: int|
        0 <= other < vertex && vertex_is_used(mesh, verdicts, other) ==> !connected(
            accepted_links(mesh, verdicts, mesh.triangles@.len()),
            other,
            vertex,
        )
}

/// Marks the lowest vertex of every connected component of accepted faces.
pub open spec fn representative_marks(mesh: Mesh, verdicts: Seq<FaceVerdict>) -> Seq<bool> {
    Seq::new(
        mesh.positions@.len(),
        |vertex: int| is_component_representative(mesh, verdicts, vertex),
    )
}

/// Integer outcome of a mesh audit: every count, flag and topology verdict
/// that does not depend on coordinate arithmetic.
pub struct TopologyReport {
    /// Number of source vertices.
    pub vertex_count: usize,
    /// Number of source triangle faces.
    pub face_count: usize,
    /// Number of unique, finite, non-degenerate faces accepted for metrics.
    pub accepted_face_count: usize,
    /// Number of vertices with NaN or infinity.
    pub non_finite_vertex_count: usize,
    /// Number of faces containing an invalid index.
    pub invalid_index_face_count: usize,
    /// Number of faces referencing a non-finite vertex.
    pub non_finite_face_count: usize,
    /// Number of repeated-index or negligible-area faces.
    pub degenerate_face_count: usize,
    /// Number of faces duplicating an earlier face.
    pub duplicate_face_count: usize,
    /// Number of finite vertices unused by accepted faces.
    pub isolated_vertex_count: usize,
    /// Number of edges referenced by exactly one accepted face.
    pub boundary_edge_count: usize,
    /// Number of edges referenced by more than two accepted faces.
    pub non_manifold_edge_count: usize,
    /// Number of two-face edges whose incident winding is equal rather than opposite.
    pub inconsistent_winding_edge_count: usize,
    /// Number of connected components among accepted faces.
    pub connected_component_count: usize,
    /// True when the mesh contains usable faces and no face needs conservative removal.
    pub is_analysis_ready: bool,
    /// True when accepted topology is closed, manifold, consistently wound, and clean.
    pub is_watertight: bool,
    /// Stable flags corresponding one-to-one with source faces.
    pub face_flags: Vec<MeshFaceFlags>,
    /// Stable flags corresponding one-to-one with source vertices.
    pub vertex_flags: Vec<MeshVertexFlags>,
}

/// What the topology audit reports about `mesh`, given which faces have a
/// negligible area.
pub open spec fn topology_report_matches(
    report: TopologyReport,
    mesh: Mesh,
    negligible_area: Seq<bool>,
) -> bool {
    let verdicts = all_face_verdicts(mesh, negligible_area);
    let half_edges = accepted_half_edges(mesh, verdicts, verdicts.len());
    &&& report.vertex_count == mesh.positions@.len()
    &&& report.face_count == mesh.triangles@.len()
    &&& report.accepted_face_count == tally(verdict_marks(verdicts, FaceVerdict::Accepted))
    &&& report.invalid_index_face_count == tally(
        verdict_marks(verdicts, FaceVerdict::InvalidIndex),
    )
    &&& report.non_finite_face_count == tally(
        verdict_marks(verdicts, FaceVerdict::NonFiniteVertex),
    )
    &&& report.degenerate_face_count == tally(verdict_marks(verdicts, FaceVerdict::Degenerate))
    &&& report.duplicate_face_count == tally(verdict_marks(verdicts, FaceVerdict::Duplicate))
    &&& report.non_finite_vertex_count == tally(non_finite_marks(mesh))
    &&& report.isolated_vertex_count == tally(isolated_marks(mesh, verdicts))
    &&& report.boundary_edge_count == boundary_edges(half_edges).len()
    &&& report.non_manifold_edge_count == non_manifold_edges(half_edges).len()
    &&& report.inconsistent_winding_edge_count == inconsistent_winding_edges(half_edges).len()
    &&& report.connected_component_count == tally(representative_marks(mesh, verdicts))
    &&& report.is_analysis_ready == (report.accepted_face_count > 0
        && report.invalid_index_face_count == 0 && report.non_finite_face_count == 0
        && report.degenerate_face_count == 0 && report.duplicate_face_count == 0)
    &&& report.is_watertight == (report.is_analysis_ready && report.boundary_edge_count == 0
        && report.non_manifold_edge_count == 0 && report.inconsistent_winding_edge_count == 0)
    &&& report.face_flags@.len() == mesh.triangles@.len()
    &&& forall|face: int|
        0 <= face < mesh.triangles@.len() ==> (#[trigger] report.face_flags@[face]).0
            == face_flag_bits(verdicts[face])
    &&& report.vertex_flags@.len() == mesh.positions@.len()
    &&& forall|vertex: int|
        0 <= vertex < mesh.positions@.len() ==> (#[trigger] report.vertex_flags@[vertex]).0
            == vertex_flag_bits(mesh, verdicts, vertex)
}

/// The verdict on a face is the one `face_verdict` gives it after the
/// verdicts on the faces before it; an accepted face is in range, finite and
/// has three distinct corners.
pub proof fn lemma_verdict_at(mesh: Mesh, negligible_area: Seq<bool>, face: int)
    requires
        0 <= face < mesh.triangles@.len(),
    ensures
        all_face_verdicts(mesh, negligible_area).len() == mesh.triangles@.len(),
        all_face_verdicts(mesh, negligible_area)[face] == face_verdict(
            mesh,
            negligible_area,
            face_verdicts(mesh, negligible_area, face as nat),
            face,
        ),
        all_face_verdicts(mesh, negligible_area)[face] == FaceVerdict::Accepted ==> {
            let triangle = mesh.triangles@[face];
            &&& indices_in_range(triangle, mesh.positions@.len() as int)
            &&& !repeats_index(triangle)
            &&& !negligible_area[face]
            &&& point_is_finite(mesh.positions@[triangle[0] as int])
            &&& point_is_finite(mesh.positions@[triangle[1] as int])
            &&& point_is_finite(mesh.positions@[triangle[2] as int])
        },
{
    let n = mesh.triangles@.len();
    lemma_face_verdicts_prefix(mesh, negligible_area, n, (face + 1) as nat);
    lemma_face_verdicts_prefix(mesh, negligible_area, n, face as nat);
    assert(face_verdicts(mesh, negligible_area, (face + 1) as nat)[face] == all_face_verdicts(
        mesh,
        negligible_area,
    )[face]);
}

/// Audits the topology of a mesh: classifies every face, flags every face
/// and vertex, counts boundary, non-manifold and inconsistently wound edges,
/// and counts the connected components of the accepted faces.
/// `negligible_area[face]` tells whether the face's doubled area is within
/// the audit's area threshold.
pub fn audit_topology(mesh: &Mesh, negligible_area: &Vec<bool>) -> (report: TopologyReport)
    requires
        negligible_area@.len() == mesh.triangles@.len(),
        within_allocation_limit(*mesh),
    ensures
        topology_report_matches(report, *mesh, negligible_area@),
{
    let vertex_count = mesh.positions.len();
    let face_count = mesh.triangles.len();
    let verdicts = classify_faces(mesh, negligible_area);
    proof {
        lemma_face_verdicts_prefix(*mesh, negligible_area@, face_count as nat, face_count as nat);
    }
    let edges = edge_statistics(mesh, &verdicts);
    let ghost all = verdicts@;

    let mut used: Vec<bool> = Vec::new();
    let mut vertex: usize = 0;
    while vertex < vertex_count
        invariant
            vertex <= vertex_count,
            used@.len() == vertex,
            forall|v: int| 0 <= v < vertex ==> !#[trigger] used@[v],
        decreases vertex_count - vertex,
    {
        used.push(false);
        vertex = vertex + 1;
    }

    let mut components = DisjointSet::new(vertex_count);
    let mut face_flags: Vec<MeshFaceFlags> = Vec::new();
    let mut accepted_face_count: usize = 0;
    let mut invalid_index_face_count: usize = 0;
    let mut non_finite_face_count: usize = 0;
    let mut degenerate_face_count: usize = 0;
    let mut duplicate_face_count: usize = 0;
    let mut face: usize = 0;
    while face < face_count
        invariant
            face <= face_count,
            face_count == mesh.triangles@.len(),
            vertex_count == mesh.positions@.len(),
            negligible_area@.len() == face_count,
            verdicts@ == all,
            all == all_face_verdicts(*mesh, negligible_area@),
            all.len() == face_count,
            used@.len() == vertex_count,
            forall|v: int|
                0 <= v < vertex_count ==> #[trigger] used@[v] == used_by_accepted(
                    *mesh,
                    all,
                    face as nat,
                    v,
                ),
            components.wf(),
            components.len() == vertex_count,
            components.links() == accepted_links(*mesh, all, face as nat),
            face_flags@.len() == face,
            forall|f: int|
                0 <= f < face ==> (#[trigger] face_flags@[f]).0 == face_flag_bits(all[f]),
            accepted_face_count == count_prefix(
                verdict_marks(all, FaceVerdict::Accepted),
                face as nat,
            ),
            invalid_index_face_count == count_prefix(
                verdict_marks(all, FaceVerdict::InvalidIndex),
                face as nat,
            ),
            non_finite_face_count == count_prefix(
                verdict_marks(all, FaceVerdict::NonFiniteVertex),
                face as nat,
            ),
            degenerate_face_count == count_prefix(
                verdict_marks(all, FaceVerdict::Degenerate),
                face as nat,
            ),
            duplicate_face_count == count_prefix(
                verdict_marks(all, FaceVerdict::Duplicate),
                face as nat,
            ),
            accepted_face_count + invalid_index_face_count + non_finite_face_count
                + degenerate_face_count + duplicate_face_count == face,
        decreases face_count - face,
    {
        proof {
            lemma_verdict_at(*mesh, negligible_area@, face as int);
        }
        let verdict = verdicts[face];
        let triangle = mesh.triangles[face];
        let mut flags = MeshFaceFlags::empty();
        if verdict == FaceVerdict::InvalidIndex {
            flags.insert(MeshFaceFlags::invalid_index());
            invalid_index_face_count = invalid_index_face_count + 1;
        } else if verdict == FaceVerdict::NonFiniteVertex {
            flags.insert(MeshFaceFlags::non_finite_vertex());
            non_finite_face_count = non_finite_face_count + 1;
        } else if verdict == FaceVerdict::Degenerate {
            flags.insert(MeshFaceFlags::degenerate());
            degenerate_face_count = degenerate_face_count + 1;
        } else if verdict == FaceVerdict::Duplicate {
            flags.insert(MeshFaceFlags::duplicate());
            duplicate_face_count = duplicate_face_count + 1;
        } else {
            accepted_face_count = accepted_face_count + 1;
            used.set(triangle[0] as usize, true);
            used.set(triangle[1] as usize, true);
            used.set(triangle[2] as usize, true);
            components.union(triangle[0] as usize, triangle[1] as usize);
            components.union(triangle[1] as usize, triangle[2] as usize);
        }
        proof {
            assert(0u32 | 1u32 == 1u32) by (bit_vector);
            assert(0u32 | 2u32 == 2u32) by (bit_vector);
            assert(0u32 | 4u32 == 4u32) by (bit_vector);
            assert(0u32 | 8u32 == 8u32) by (bit_vector);
        }
        face_flags.push(flags);
        face = face + 1;
        proof {
            assert(accepted_links(*mesh, all, face as nat) == components.links());
        }
    }

    let mut vertex_flags: Vec<MeshVertexFlags> = Vec::new();
    let mut non_finite_vertex_count: usize = 0;
    let mut isolated_vertex_count: usize = 0;
    let mut vertex: usize = 0;
    while vertex < vertex_count
        invariant
            vertex <= vertex_count,
            vertex_count == mesh.positions@.len(),
            face_count == mesh.triangles@.len(),
            used@.len() == vertex_count,
            forall|v: int|
                0 <= v < vertex_count ==> #[trigger] used@[v] == vertex_is_used(*mesh, all, v),
            vertex_flags@.len() == vertex,
            forall|v: int|
                0 <= v < vertex ==> (#[trigger] vertex_flags@[v]).0 == vertex_flag_bits(
                    *mesh,
                    all,
                    v,
                ),
            non_finite_vertex_count == count_prefix(non_finite_marks(*mesh), vertex as nat),
            isolated_vertex_count == count_prefix(isolated_marks(*mesh, all), vertex as nat),
            non_finite_vertex_count + isolated_vertex_count <= vertex,
        decreases vertex_count - vertex,
    {
        let finite = point_finite(mesh.positions[vertex]);
        let mut flags = MeshVertexFlags::empty();
        if !finite {
            flags.insert(MeshVertexFlags::non_finite());
            non_finite_vertex_count = non_finite_vertex_count + 1;
        } else if !used[vertex] {
            flags.insert(MeshVertexFlags::isolated());
            isolated_vertex_count = isolated_vertex_count + 1;
        }
        proof {
            assert(0u32 | 1u32 == 1u32) by (bit_vector);
            assert(0u32 | 2u32 == 2u32) by (bit_vector);
        }
        vertex_flags.push(flags);
        vertex = vertex + 1;
    }

    let mut seen: Vec<bool> = Vec::new();
    let mut root: usize = 0;
    while root < vertex_count
        invariant
            root <= vertex_count,
            seen@.len() == root,
            forall|r: int| 0 <= r < root ==> !#[trigger] seen@[r],
        decreases vertex_count - root,
    {
        seen.push(false);
        root = root + 1;
    }
    let ghost links = accepted_links(*mesh, all, face_count as nat);
    let mut connected_component_count: usize = 0;
    let mut vertex: usize = 0;
    while vertex < vertex_count
        invariant
            vertex <= vertex_count,
            vertex_count == mesh.positions@.len(),
            face_count == mesh.triangles@.len(),
            used@.len() == vertex_count,
            forall|v: int|
                0 <= v < vertex_count ==> #[trigger] used@[v] == vertex_is_used(*mesh, all, v),
            components.wf(),
            components.len() == vertex_count,
            components.links() == links,
            links == accepted_links(*mesh, all, face_count as nat),
            seen@.len() == vertex_count,
            forall|r: int|
                0 <= r < vertex_count ==> (#[trigger] seen@[r] <==> exists|u: int|
                    0 <= u < vertex && used@[u] && components.root_of(u) == r),
            connected_component_count == count_prefix(
                representative_marks(*mesh, all),
                vertex as nat,
            ),
            connected_component_count <= vertex,
        decreases vertex_count - vertex,
    {
        let ghost before = components;
        let ghost seen_before = seen@;
        if used[vertex] {
            let representative = components.find(vertex);
            proof {
                assert forall|u: int| 0 <= u < vertex_count implies #[trigger] components.root_of(u)
                    == before.root_of(u) by {}
                assert forall|u: int|
                    0 <= u < vertex && vertex_is_used(*mesh, all, u) implies (components.root_of(u)
                    == representative) == connected(links, u, vertex as int) by {
                    components.lemma_root_of_iff_connected(u, vertex as int);
                }
                if seen@[representative as int] {
                    let u = choose|u: int|
                        0 <= u < vertex && used@[u] && before.root_of(u)
                            == representative as int;
                    assert(used@[u]);
                    assert(vertex_is_used(*mesh, all, u));
                    assert(components.root_of(u) == representative);
                    assert(connected(links, u, vertex as int));
                    assert(!is_component_representative(*mesh, all, vertex as int));
                } else {
                    assert forall|u: int|
                        0 <= u < vertex && vertex_is_used(*mesh, all, u) implies !connected(
                        accepted_links(*mesh, all, mesh.triangles@.len()),
                        u,
                        vertex as int,
                    ) by {
                        assert(used@[u]);
                        assert(before.root_of(u) != representative as int);
                        assert(components.root_of(u) != representative);
                    }
                    assert(is_component_representative(*mesh, all, vertex as int));
                }
            }
            if !seen[representative] {
                seen.set(representative, true);
                connected_component_count = connected_component_count + 1;
            }
            proof {
                assert forall|r: int| 0 <= r < vertex_count implies (#[trigger] seen@[r]
                    <==> exists|u: int|
                    0 <= u < vertex + 1 && used@[u] && components.root_of(u) == r) by {
                    if r == representative as int {
                        assert(used@[vertex as int] && components.root_of(vertex as int) == r);
                    } else {
                        assert(seen@[r] == seen_before[r]);
                        if seen_before[r] {
                            let u = choose|u: int|
                                0 <= u < vertex && used@[u] && before.root_of(u) == r;
                            assert(components.root_of(u) == before.root_of(u));
                        }
                        if exists|u: int|
                            0 <= u < vertex + 1 && used@[u] && components.root_of(u) == r {
                            let u = choose|u: int|
                                0 <= u < vertex + 1 && used@[u] && components.root_of(u) == r;
                            assert(u != vertex);
                            assert(before.root_of(u) == r);
                        }
                    }
                }
            }
        } else {
            proof {
                assert(!is_component_representative(*mesh, all, vertex as int));
                assert forall|r: int| 0 <= r < vertex_count implies (#[trigger] seen@[r]
                    <==> exists|u: int|
                    0 <= u < vertex + 1 && used@[u] && components.root_of(u) == r) by {
                    if exists|u: int|
                        0 <= u < vertex + 1 && used@[u] && components.root_of(u) == r {
                        let u = choose|u: int|
                            0 <= u < vertex + 1 && used@[u] && components.root_of(u) == r;
                        assert(u != vertex);
                    }
                }
            }
        }
        vertex = vertex + 1;
    }

    let is_analysis_ready = accepted_face_count > 0 && invalid_index_face_count == 0
        && non_finite_face_count == 0 && degenerate_face_count == 0 && duplicate_face_count == 0;
    let is_watertight = is_analysis_ready && edges.boundary == 0 && edges.non_manifold == 0
        && edges.inconsistent_winding == 0;
    TopologyReport {
        vertex_count,
        face_count,
        accepted_face_count,
        non_finite_vertex_count,
        invalid_index_face_count,
        non_finite_face_count,
        degenerate_face_count,
        duplicate_face_count,
        isolated_vertex_count,
        boundary_edge_count: edges.boundary,
        non_manifold_edge_count: edges.non_manifold,
        inconsistent_winding_edge_count: edges.inconsistent_winding,
        connected_component_count,
        is_analysis_ready,
        is_watertight,
        face_flags,
        vertex_flags,
    }
}

proof fn lemma_verdict_counts_prefix(verdicts: Seq<FaceVerdict>, count: nat)
    requires
        count <= verdicts.len(),
    ensures
        count_prefix(verdict_marks(verdicts, FaceVerdict::Accepted), count) + count_prefix(
            verdict_marks(verdicts, FaceVerdict::InvalidIndex),
            count,
        ) + count_prefix(verdict_marks(verdicts, FaceVerdict::NonFiniteVertex), count)
            + count_prefix(verdict_marks(verdicts, FaceVerdict::Degenerate), count)
            + count_prefix(verdict_marks(verdicts, FaceVerdict::Duplicate), count) == count,
    decreases count,
{
    if count > 0 {
        lemma_verdict_counts_prefix(verdicts, (count - 1) as nat);
    }
}

/// The accepted, invalid-index, non-finite, degenerate and duplicate counts
/// add up to the face count.
pub proof fn lemma_face_counts_partition(mesh: Mesh, negligible_area: Seq<bool>)
    ensures
        ({
            let verdicts = all_face_verdicts(mesh, negligible_area);
            tally(verdict_marks(verdicts, FaceVerdict::Accepted)) + tally(
                verdict_marks(verdicts, FaceVerdict::InvalidIndex),
            ) + tally(verdict_marks(verdicts, FaceVerdict::NonFiniteVertex)) + tally(
                verdict_marks(verdicts, FaceVerdict::Degenerate),
            ) + tally(verdict_marks(verdicts, FaceVerdict::Duplicate)) == mesh.triangles@.len()
        }),
{
    let n = mesh.triangles@.len();
    lemma_face_verdicts_prefix(mesh, negligible_area, n, n);
    lemma_verdict_counts_prefix(all_face_verdicts(mesh, negligible_area), n);
}

/// A face is flagged when it is not accepted, and then with the one flag of
/// its verdict; conservative repair removes the flagged faces.
pub proof fn lemma_face_flag_marks_removal(verdict: FaceVerdict)
    ensures
        (face_flag_bits(verdict) != 0) == (verdict != FaceVerdict::Accepted),
        face_flag_bits(verdict) == 0 || face_flag_bits(verdict) == 1 || face_flag_bits(verdict)
            == 2 || face_flag_bits(verdict) == 4 || face_flag_bits(verdict) == 8,
{
}

proof fn lemma_count_prefix_positive(marks: Seq<bool>, len: nat, i: int)
    requires
        0 <= i < len <= marks.len(),
        marks[i],
    ensures
        count_prefix(marks, len) >= 1,
    decreases len,
{
    if i < len - 1 {
        lemma_count_prefix_positive(marks, (len - 1) as nat, i);
    }
}

proof fn lemma_count_prefix_zero(marks: Seq<bool>, len: nat)
    requires
        len <= marks.len(),
        forall|i: int| 0 <= i < len ==> !#[trigger] marks[i],
    ensures
        count_prefix(marks, len) == 0,
    decreases len,
{
    if len > 0 {
        lemma_count_prefix_zero(marks, (len - 1) as nat);
    }
}

proof fn lemma_used_needs_accepted(mesh: Mesh, verdicts: Seq<FaceVerdict>, count: nat, vertex: int)
    requires
        count <= verdicts.len(),
        used_by_accepted(mesh, verdicts, count, vertex),
    ensures
        count_prefix(verdict_marks(verdicts, FaceVerdict::Accepted), count) >= 1,
    decreases count,
{
    if used_by_accepted(mesh, verdicts, (count - 1) as nat, vertex) {
        lemma_used_needs_accepted(mesh, verdicts, (count - 1) as nat, vertex);
    }
}

proof fn lemma_lowest_used(mesh: Mesh, verdicts: Seq<FaceVerdict>, bound: int) -> (lowest: int)
    requires
        0 <= bound,
        exists|v: int| 0 <= v < bound && vertex_is_used(mesh, verdicts, v),
    ensures
        0 <= lowest < bound,
        vertex_is_used(mesh, verdicts, lowest),
        forall|other: int| 0 <= other < lowest ==> !vertex_is_used(mesh, verdicts, other),
    decreases bound,
{
    if exists|v: int| 0 <= v < bound - 1 && vertex_is_used(mesh, verdicts, v) {
        lemma_lowest_used(mesh, verdicts, bound - 1)
    } else {
        let v = choose|v: int| 0 <= v < bound && vertex_is_used(mesh, verdicts, v);
        assert(v == bound - 1);
        bound - 1
    }
}

/// A mesh has connected components exactly when it has accepted faces.
pub proof fn lemma_components_exist_iff_accepted(mesh: Mesh, negligible_area: Seq<bool>)
    ensures
        ({
            let verdicts = all_face_verdicts(mesh, negligible_area);
            (tally(representative_marks(mesh, verdicts)) > 0) == (tally(
                verdict_marks(verdicts, FaceVerdict::Accepted),
            ) > 0)
        }),
{
    let n = mesh.triangles@.len();
    let verdicts = all_face_verdicts(mesh, negligible_area);
    lemma_face_verdicts_prefix(mesh, negligible_area, n, n);
    let marks = representative_marks(mesh, verdicts);
    let accepted = verdict_marks(verdicts, FaceVerdict::Accepted);
    if tally(accepted) > 0 {
        if forall|f: int| 0 <= f < n ==> !#[trigger] accepted[f] {
            lemma_count_prefix_zero(accepted, n);
        }
        let f = choose|f: int| 0 <= f < n && #[trigger] accepted[f];
        lemma_verdict_at(mesh, negligible_area, f);
        let v = mesh.triangles@[f][0] as int;
        lemma_used_in_face(mesh, verdicts, n, f, v);
        assert(0 <= v < mesh.positions@.len());
        assert(vertex_is_used(mesh, verdicts, v));
        let lowest = lemma_lowest_used(mesh, verdicts, mesh.positions@.len() as int);
        assert(is_component_representative(mesh, verdicts, lowest));
        lemma_count_prefix_positive(marks, mesh.positions@.len(), lowest);
    } else {
        assert forall|v: int| 0 <= v < mesh.positions@.len() implies !#[trigger] marks[v] by {
            if vertex_is_used(mesh, verdicts, v) {
                lemma_used_needs_accepted(mesh, verdicts, n, v);
            }
        }
        lemma_count_prefix_zero(marks, mesh.positions@.len());
    }
}

proof fn lemma_used_in_face(
    mesh: Mesh,
    verdicts: Seq<FaceVerdict>,
    count: nat,
    face: int,
    vertex: int,
)
    requires
        0 <= face < count <= verdicts.len(),
        verdicts[face] == FaceVerdict::Accepted,
        triangle_has_vertex(mesh.triangles@[face], vertex),
    ensures
        used_by_accepted(mesh, verdicts, count, vertex),
    decreases count,
{
    if face < count - 1 {
        lemma_used_in_face(mesh, verdicts, (count - 1) as nat, face, vertex);
    }
}

/// A vertex used by an accepted face among the first `count` faces is named
/// by one of them.
proof fn lemma_used_has_face(mesh: Mesh, verdicts: Seq<FaceVerdict>, count: nat, vertex: int) -> (face: int)
    requires
        used_by_accepted(mesh, verdicts, count, vertex),
    ensures
        0 <= face < count,
        verdicts[face] == FaceVerdict::Accepted,
        triangle_has_vertex(mesh.triangles@[face], vertex),
    decreases count,
{
    if used_by_accepted(mesh, verdicts, (count - 1) as nat, vertex) {
        lemma_used_has_face(mesh, verdicts, (count - 1) as nat, vertex)
    } else {
        count - 1
    }
}

/// A vertex named by an accepted face among the first `count` faces is used.
proof fn lemma_face_makes_used(mesh: Mesh, verdicts: Seq<FaceVerdict>, count: nat, face: int, vertex: int)
    requires
        0 <= face < count,
        verdicts[face] == FaceVerdict::Accepted,
        triangle_has_vertex(mesh.triangles@[face], vertex),
    ensures
        used_by_accepted(mesh, verdicts, count, vertex),
    decreases count,
{
    if face < count - 1 {
        lemma_face_makes_used(mesh, verdicts, (count - 1) as nat, face, vertex);
    }
}

/// The audit counts as isolated exactly the vertices whose three
/// coordinates are finite (no exponent with all bits set) and that no
/// accepted face names; a vertex with a NaN or infinite coordinate is never
/// isolated, whether or not a face uses it.
pub proof fn lemma_isolated_vertices_are_finite_and_unused(
    mesh: Mesh,
    negligible_area: Seq<bool>,
    report: TopologyReport,
)
    requires
        negligible_area.len() == mesh.triangles@.len(),
        topology_report_matches(report, mesh, negligible_area),
    ensures
        report.isolated_vertex_count == tally(
            Seq::new(
                mesh.positions@.len(),
                |vertex: int|
                    (mesh.positions@[vertex][0] >> 52u64) & 0x7ffu64 != 0x7ffu64 && (
                    mesh.positions@[vertex][1] >> 52u64) & 0x7ffu64 != 0x7ffu64 && (
                    mesh.positions@[vertex][2] >> 52u64) & 0x7ffu64 != 0x7ffu64 && !(exists|f: int|
                        0 <= f < mesh.triangles@.len() && all_face_verdicts(mesh, negligible_area)[f]
                            == FaceVerdict::Accepted && (#[trigger] mesh.triangles@[f][0] == vertex
                            || mesh.triangles@[f][1] == vertex || mesh.triangles@[f][2] == vertex)),
            ),
        ),
{
    let verdicts = all_face_verdicts(mesh, negligible_area);
    let n = mesh.positions@.len();
    let raw = Seq::new(
        n,
        |vertex: int|
            (mesh.positions@[vertex][0] >> 52u64) & 0x7ffu64 != 0x7ffu64 && (
            mesh.positions@[vertex][1] >> 52u64) & 0x7ffu64 != 0x7ffu64 && (
            mesh.positions@[vertex][2] >> 52u64) & 0x7ffu64 != 0x7ffu64 && !(exists|f: int|
                0 <= f < mesh.triangles@.len() && all_face_verdicts(mesh, negligible_area)[f]
                    == FaceVerdict::Accepted && (#[trigger] mesh.triangles@[f][0] == vertex
                    || mesh.triangles@[f][1] == vertex || mesh.triangles@[f][2] == vertex)),
    );
    assert forall|vertex: int| 0 <= vertex < n implies #[trigger] raw[vertex] == isolated_marks(mesh, verdicts)[vertex] by {
        let m = mesh.triangles@.len();
        if used_by_accepted(mesh, verdicts, m, vertex) {
            let f = lemma_used_has_face(mesh, verdicts, m, vertex);
            assert(mesh.triangles@[f][0] == vertex || mesh.triangles@[f][1] == vertex
                || mesh.triangles@[f][2] == vertex);
        }
        if !used_by_accepted(mesh, verdicts, m, vertex) {
            assert forall|f: int| 0 <= f < m && verdicts[f] == FaceVerdict::Accepted implies !(
            #[trigger] mesh.triangles@[f][0] == vertex || mesh.triangles@[f][1] == vertex
                || mesh.triangles@[f][2] == vertex) by {
                if triangle_has_vertex(mesh.triangles@[f], vertex) {
                    lemma_face_makes_used(mesh, verdicts, m, f, vertex);
                }
            }
        }
    }
    assert(raw =~= isolated_marks(mesh, verdicts));
}

/// Two meshes with the same positions and the same first `count` faces and
/// area answers give those faces the same verdicts.
#[verifier::spinoff_prover]
proof fn lemma_face_verdicts_agree(
    a: Mesh,
    a_area: Seq<bool>,
    b: Mesh,
    b_area: Seq<bool>,
    count: nat,
)
    requires
        a.positions@ == b.positions@,
        count <= a.triangles@.len(),
        count <= b.triangles@.len(),
        count <= a_area.len(),
        count <= b_area.len(),
        forall|i: int|
            #![trigger a.triangles@[i]]
            0 <= i < count ==> a.triangles@[i] == b.triangles@[i] && a_area[i] == b_area[i],
    ensures
        face_verdicts(a, a_area, count) == face_verdicts(b, b_area, count),
    decreases count,
{
    if count > 0 {
        lemma_face_verdicts_agree(a, a_area, b, b_area, (count - 1) as nat);
        let earlier = face_verdicts(a, a_area, (count - 1) as nat);
        let index = count - 1;
        assert(a.triangles@[index] == b.triangles@[index] && a_area[index] == b_area[index]);
        assert forall|j: int|
            #![trigger sorted_corners(a.triangles@[j])]
            #![trigger sorted_corners(b.triangles@[j])]
            0 <= j < index implies sorted_corners(a.triangles@[j]) == sorted_corners(b.triangles@[j]) by {
            assert(a.triangles@[j] == b.triangles@[j]);
        }
        assert(face_verdict(a, a_area, earlier, index) == face_verdict(b, b_area, earlier, index));
    }
}

/// Accepted links and used vertices among the first `count` faces depend
/// only on those faces and their verdicts.
#[verifier::spinoff_prover]
proof fn lemma_accepted_prefix_agree(
    a: Mesh,
    a_verdicts: Seq<FaceVerdict>,
    b: Mesh,
    b_verdicts: Seq<FaceVerdict>,
    count: nat,
)
    requires
        count <= a.triangles@.len(),
        count <= b.triangles@.len(),
        forall|i: int|
            #![trigger a.triangles@[i]]
            0 <= i < count ==> a.triangles@[i] == b.triangles@[i] && a_verdicts[i] == b_verdicts[i],
    ensures
        accepted_links(a, a_verdicts, count) == accepted_links(b, b_verdicts, count),
        forall|vertex: int| #[trigger] used_by_accepted(a, a_verdicts, count, vertex) == used_by_accepted(b, b_verdicts, count, vertex),
    decreases count,
{
    if count > 0 {
        lemma_accepted_prefix_agree(a, a_verdicts, b, b_verdicts, (count - 1) as nat);
        assert(a.triangles@[count - 1] == b.triangles@[count - 1]);
        assert forall|vertex: int| #[trigger] used_by_accepted(a, a_verdicts, count, vertex) == used_by_accepted(b, b_verdicts, count, vertex) by {
            assert(used_by_accepted(a, a_verdicts, (count - 1) as nat, vertex) == used_by_accepted(b, b_verdicts, (count - 1) as nat, vertex));
        }
    }
}

/// Counting the first `len` marks looks at those marks only.
#[verifier::spinoff_prover]
proof fn lemma_count_prefix_agree(a: Seq<bool>, b: Seq<bool>, len: nat)
    requires
        len <= a.len(),
        len <= b.len(),
        forall|i: int| 0 <= i < len ==> #[trigger] a[i] == b[i],
    ensures
        count_prefix(a, len) == count_prefix(b, len),
    decreases len,
{
    if len > 0 {
        lemma_count_prefix_agree(a, b, (len - 1) as nat);
    }
}

/// A face that the audit rejects joins nothing and uses nothing: appending
/// a rejected face (one with an index out of range, a non-finite corner, a
/// repeated index or negligible area, or a duplicate) to a mesh leaves its
/// connected-component count, its isolated-vertex count and its
/// accepted-face count unchanged.
#[verifier::spinoff_prover]
pub proof fn lemma_rejected_face_changes_no_count(
    mesh: Mesh,
    negligible_area: Seq<bool>,
    extended: Mesh,
    extended_negligible_area: Seq<bool>,
    report: TopologyReport,
    extended_report: TopologyReport,
)
    requires
        negligible_area.len() == mesh.triangles@.len(),
        extended.positions@ == mesh.positions@,
        extended.triangles@.len() == mesh.triangles@.len() + 1,
        extended_negligible_area.len() == extended.triangles@.len(),
        forall|i: int|
            0 <= i < mesh.triangles@.len() ==> #[trigger] extended.triangles@[i] == mesh.triangles@[i]
                && extended_negligible_area[i] == negligible_area[i],
        all_face_verdicts(extended, extended_negligible_area)[mesh.triangles@.len() as int]
            != FaceVerdict::Accepted,
        topology_report_matches(report, mesh, negligible_area),
        topology_report_matches(extended_report, extended, extended_negligible_area),
    ensures
        extended_report.connected_component_count == report.connected_component_count,
        extended_report.isolated_vertex_count == report.isolated_vertex_count,
        extended_report.accepted_face_count == report.accepted_face_count,
{
    let m = mesh.triangles@.len();
    let verdicts = all_face_verdicts(mesh, negligible_area);
    let ext_verdicts = all_face_verdicts(extended, extended_negligible_area);
    lemma_face_verdicts_prefix(mesh, negligible_area, m, m);
    lemma_face_verdicts_prefix(extended, extended_negligible_area, m + 1, m);
    assert forall|i: int| #![trigger mesh.triangles@[i]] 0 <= i < m implies mesh.triangles@[i] == extended.triangles@[i] && negligible_area[i] == extended_negligible_area[i] by {
        assert(extended.triangles@[i] == mesh.triangles@[i]);
    }
    lemma_face_verdicts_agree(mesh, negligible_area, extended, extended_negligible_area, m);
    assert forall|i: int| 0 <= i < m implies #[trigger] ext_verdicts[i] == verdicts[i] by {
        assert(face_verdicts(extended, extended_negligible_area, m)[i] == ext_verdicts[i]);
    }
    assert(ext_verdicts[m as int] != FaceVerdict::Accepted);
    assert forall|i: int| #![trigger mesh.triangles@[i]] 0 <= i < m implies mesh.triangles@[i] == extended.triangles@[i] && verdicts[i] == ext_verdicts[i] by {
        assert(extended.triangles@[i] == mesh.triangles@[i]);
        assert(ext_verdicts[i] == verdicts[i]);
    }
    lemma_accepted_prefix_agree(mesh, verdicts, extended, ext_verdicts, m);
    assert(accepted_links(extended, ext_verdicts, m + 1) == accepted_links(extended, ext_verdicts, m));
    assert forall|vertex: int| #[trigger] vertex_is_used(extended, ext_verdicts, vertex) == vertex_is_used(mesh, verdicts, vertex) by {
        assert(used_by_accepted(extended, ext_verdicts, m + 1, vertex) == used_by_accepted(extended, ext_verdicts, m, vertex));
        assert(used_by_accepted(mesh, verdicts, m, vertex) == used_by_accepted(extended, ext_verdicts, m, vertex));
    }
    let links = accepted_links(mesh, verdicts, m);
    assert(accepted_links(extended, ext_verdicts, extended.triangles@.len()) == links);
    assert forall|vertex: int| 0 <= vertex < mesh.positions@.len() implies #[trigger] representative_marks(extended, ext_verdicts)[vertex] == representative_marks(mesh, verdicts)[vertex] by {
        assert(vertex_is_used(extended, ext_verdicts, vertex) == vertex_is_used(mesh, verdicts, vertex));
        if is_component_representative(mesh, verdicts, vertex) {
            assert forall|other: int|
                0 <= other < vertex && vertex_is_used(extended, ext_verdicts, other) implies !connected(
                    accepted_links(extended, ext_verdicts, extended.triangles@.len()),
                    other,
                    vertex,
                ) by {
                assert(vertex_is_used(extended, ext_verdicts, other) == vertex_is_used(mesh, verdicts, other));
            }
            assert(is_component_representative(extended, ext_verdicts, vertex));
        }
        if is_component_representative(extended, ext_verdicts, vertex) {
            assert forall|other: int|
                0 <= other < vertex && vertex_is_used(mesh, verdicts, other) implies !connected(
                    accepted_links(mesh, verdicts, mesh.triangles@.len()),
                    other,
                    vertex,
                ) by {
                assert(vertex_is_used(extended, ext_verdicts, other) == vertex_is_used(mesh, verdicts, other));
            }
            assert(is_component_representative(mesh, verdicts, vertex));
        }
    }
    assert(representative_marks(extended, ext_verdicts) =~= representative_marks(mesh, verdicts));
    assert(isolated_marks(extended, ext_verdicts) =~= isolated_marks(mesh, verdicts));
    let before_marks = verdict_marks(verdicts, FaceVerdict::Accepted);
    let after_marks = verdict_marks(ext_verdicts, FaceVerdict::Accepted);
    lemma_count_prefix_agree(before_marks, after_marks, m);
    assert(count_prefix(after_marks, m + 1) == count_prefix(after_marks, m));
}

} // verus!
