use crate::flags::MeshIssue;
use crate::topology::{indices_in_range, point_finite, point_is_finite, Mesh};
use vstd::prelude::*;

verus! {

/// Issues for the non-finite vertices among the first `count`, in order.
pub open spec fn vertex_issues(mesh: Mesh, count: nat) -> Seq<MeshIssue>
    decreases count,
{
    if count == 0 {
        Seq::empty()
    } else {
        let earlier = vertex_issues(mesh, (count - 1) as nat);
        if !point_is_finite(mesh.positions@[count - 1]) {
            earlier.push(MeshIssue::NonFiniteVertex { vertex_index: (count - 1) as usize })
        } else {
            earlier
        }
    }
}

/// Issues for the first `count` triangles, in order: an out-of-range index,
/// or else a negligible area as `degenerate` records it.
pub open spec fn triangle_issues(mesh: Mesh, degenerate: Seq<bool>, count: nat) -> Seq<MeshIssue>
    decreases count,
{
    if count == 0 {
        Seq::empty()
    } else {
        let earlier = triangle_issues(mesh, degenerate, (count - 1) as nat);
        let triangle = mesh.triangles@[count - 1];
        if !indices_in_range(triangle, mesh.positions@.len() as int) {
            earlier.push(
                MeshIssue::IndexOutOfBounds {
                    triangle_index: (count - 1) as usize,
                    indices: triangle,
                    vertex_count: mesh.positions@.len() as usize,
                },
            )
        } else if degenerate[count - 1] {
            earlier.push(MeshIssue::DegenerateTriangle { triangle_index: (count - 1) as usize })
        } else {
            earlier
        }
    }
}

impl Mesh {
    /// Returns all structural issues found without mutating the mesh: every
    /// non-finite vertex, then, triangle by triangle, an out-of-range index
    /// or a negligible area. `degenerate[face]` tells whether the face's
    /// doubled area is within the validation tolerance.
    pub fn validate(&self, degenerate: &Vec<bool>) -> (issues: Vec<MeshIssue>)
        requires
            degenerate@.len() == self.triangles@.len(),
        ensures
            issues@ == vertex_issues(*self, self.positions@.len()) + triangle_issues(
                *self,
                degenerate@,
                self.triangles@.len(),
            ),
    {
        let vertex_count = self.positions.len();
        let mut issues: Vec<MeshIssue> = Vec::new();
        let mut vertex: usize = 0;
        while vertex < vertex_count
            invariant
                vertex <= vertex_count,
                vertex_count == self.positions@.len(),
                issues@ == vertex_issues(*self, vertex as nat),
            decreases vertex_count - vertex,
        {
            if !point_finite(self.positions[vertex]) {
                issues.push(MeshIssue::NonFiniteVertex { vertex_index: vertex });
            }
            vertex = vertex + 1;
        }
        let ghost head = issues@;
        let mut face: usize = 0;
        while face < self.triangles.len()
            invariant
                face <= self.triangles@.len(),
                vertex_count == self.positions@.len(),
                degenerate@.len() == self.triangles@.len(),
                head == vertex_issues(*self, vertex_count as nat),
                issues@ == head + triangle_issues(*self, degenerate@, face as nat),
            decreases self.triangles@.len() - face,
        {
            let triangle = self.triangles[face];
            if (triangle[0] as usize) >= vertex_count || (triangle[1] as usize) >= vertex_count
                || (triangle[2] as usize) >= vertex_count {
                issues.push(
                    MeshIssue::IndexOutOfBounds {
                        triangle_index: face,
                        indices: triangle,
                        vertex_count,
                    },
                );
            } else if degenerate[face] {
                issues.push(MeshIssue::DegenerateTriangle { triangle_index: face });
            }
            face = face + 1;
            proof {
                assert(issues@ =~= head + triangle_issues(*self, degenerate@, face as nat));
            }
        }
        issues
    }
}

/// The vertex issues among the first `count` vertices are all
/// non-finite-vertex issues.
proof fn lemma_vertex_issues_kind(mesh: Mesh, count: nat)
    requires
        count <= mesh.positions@.len(),
    ensures
        forall|i: int|
            0 <= i < vertex_issues(mesh, count).len() ==> #[trigger] vertex_issues(mesh, count)[i] is NonFiniteVertex,
    decreases count,
{
    if count > 0 {
        lemma_vertex_issues_kind(mesh, (count - 1) as nat);
        let earlier = vertex_issues(mesh, (count - 1) as nat);
        let now = vertex_issues(mesh, count);
        assert forall|i: int| 0 <= i < now.len() implies #[trigger] now[i] is NonFiniteVertex by {
            if i < earlier.len() {
                assert(now[i] == earlier[i]);
            }
        }
    }
}

/// The vertex issues among the first `count` vertices name vertex `v`
/// exactly when it is among them and non-finite.
proof fn lemma_vertex_issue_at(mesh: Mesh, count: nat, v: int)
    requires
        count <= mesh.positions@.len(),
        mesh.positions@.len() <= usize::MAX,
        0 <= v < mesh.positions@.len(),
    ensures
        vertex_issues(mesh, count).contains(MeshIssue::NonFiniteVertex { vertex_index: v as usize })
            <==> (v < count && !point_is_finite(mesh.positions@[v])),
    decreases count,
{
    let issue = MeshIssue::NonFiniteVertex { vertex_index: v as usize };
    if count > 0 {
        lemma_vertex_issue_at(mesh, (count - 1) as nat, v);
        let earlier = vertex_issues(mesh, (count - 1) as nat);
        let last = (count - 1) as int;
        let now = vertex_issues(mesh, count);
        if !point_is_finite(mesh.positions@[last]) {
            let added = MeshIssue::NonFiniteVertex { vertex_index: last as usize };
            assert(now == earlier.push(added));
            if now.contains(issue) {
                let i = choose|i: int| 0 <= i < now.len() && now[i] == issue;
                if i < earlier.len() {
                    assert(earlier[i] == issue);
                    assert(earlier.contains(issue));
                } else {
                    assert(now[i] == added);
                    assert(v as usize == last as usize);
                    assert(v == last);
                }
            }
            if v == last {
                assert(now[earlier.len() as int] == issue);
            }
            if earlier.contains(issue) {
                let i = choose|i: int| 0 <= i < earlier.len() && earlier[i] == issue;
                assert(now[i] == issue);
            }
        } else {
            assert(now == earlier);
        }
    } else {
        assert(!vertex_issues(mesh, 0).contains(issue));
    }
}

/// Triangle issues never report a vertex.
proof fn lemma_triangle_issues_name_no_vertex(mesh: Mesh, degenerate: Seq<bool>, count: nat)
    ensures
        forall|i: int|
            0 <= i < triangle_issues(mesh, degenerate, count).len() ==> !(#[trigger] triangle_issues(
                mesh,
                degenerate,
                count,
            )[i] is NonFiniteVertex),
    decreases count,
{
    if count > 0 {
        lemma_triangle_issues_name_no_vertex(mesh, degenerate, (count - 1) as nat);
    }
}

/// Validation reports a vertex as non-finite exactly when one of its three
/// coordinates is NaN or infinite (its exponent bits are all ones).
pub proof fn lemma_validate_flags_non_finite_vertices(
    mesh: Mesh,
    degenerate: Seq<bool>,
    issues: Seq<MeshIssue>,
)
    requires
        mesh.positions@.len() <= usize::MAX,
        issues == vertex_issues(mesh, mesh.positions@.len()) + triangle_issues(
            mesh,
            degenerate,
            mesh.triangles@.len(),
        ),
    ensures
        forall|v: int|
            #![trigger issues.contains(MeshIssue::NonFiniteVertex { vertex_index: v as usize })]
            0 <= v < mesh.positions@.len() ==> (issues.contains(
                MeshIssue::NonFiniteVertex { vertex_index: v as usize },
            ) <==> exists|axis: int|
                0 <= axis < 3 && (#[trigger] mesh.positions@[v][axis] >> 52u64) & 0x7ffu64
                    == 0x7ffu64),
{
    let n = mesh.positions@.len();
    let head = vertex_issues(mesh, n);
    let tail = triangle_issues(mesh, degenerate, mesh.triangles@.len());
    lemma_vertex_issues_kind(mesh, n);
    lemma_triangle_issues_name_no_vertex(mesh, degenerate, mesh.triangles@.len());
    assert forall|v: int|
        #![trigger issues.contains(MeshIssue::NonFiniteVertex { vertex_index: v as usize })]
        0 <= v < n implies (issues.contains(
        MeshIssue::NonFiniteVertex { vertex_index: v as usize },
    ) <==> exists|axis: int|
        0 <= axis < 3 && (#[trigger] mesh.positions@[v][axis] >> 52u64) & 0x7ffu64 == 0x7ffu64) by {
        let issue = MeshIssue::NonFiniteVertex { vertex_index: v as usize };
        let point = mesh.positions@[v];
        lemma_vertex_issue_at(mesh, n, v);
        if issues.contains(issue) {
            let i = choose|i: int| 0 <= i < issues.len() && issues[i] == issue;
            if i >= head.len() {
                assert(tail[i - head.len()] == issues[i]);
            } else {
                assert(head[i] == issue);
                assert(head.contains(issue));
            }
        }
        if head.contains(issue) {
            let i = choose|i: int| 0 <= i < head.len() && head[i] == issue;
            assert(issues[i] == issue);
        }
        if !point_is_finite(point) {
            if (point[0] >> 52u64) & 0x7ffu64 == 0x7ffu64 {
                assert(mesh.positions@[v][0] == point[0]);
            } else if (point[1] >> 52u64) & 0x7ffu64 == 0x7ffu64 {
                assert(mesh.positions@[v][1] == point[1]);
            } else {
                assert(mesh.positions@[v][2] == point[2]);
            }
        }
    }
}

} // verus!
