use crate::repair::lemma_distinct_entries_len;
use crate::topology::Mesh;
use std::collections::BTreeMap;
use vstd::prelude::*;
use vstd::std_specs::btree::{axiom_spec_keys_iter, group_btree_axioms, spec_keys_iter};
use vstd::std_specs::iter::IteratorSpec;

verus! {

broadcast use group_btree_axioms;

/// The undirected edge traversed from `start` to `end`, keyed by its lower
/// and higher index, and whether the traversal runs from lower to higher.
pub open spec fn directed_edge(start: u32, end: u32) -> (u64, bool) {
    if start < end {
        ((start as int * 0x1_0000_0000 + end as int) as u64, true)
    } else {
        ((end as int * 0x1_0000_0000 + start as int) as u64, false)
    }
}

/// Every half-edge of the first `count` faces as (edge, face, forward), in
/// face order and, within a face, from corner 0 to 1, 1 to 2 and 2 to 0.
pub open spec fn face_half_edges(triangles: Seq<[u32; 3]>, count: nat) -> Seq<(u64, usize, bool)>
    decreases count,
{
    if count == 0 {
        Seq::empty()
    } else {
        let face = (count - 1) as usize;
        let t = triangles[count - 1];
        let first = directed_edge(t[0], t[1]);
        let second = directed_edge(t[1], t[2]);
        let third = directed_edge(t[2], t[0]);
        face_half_edges(triangles, (count - 1) as nat).push((first.0, face, first.1)).push(
            (second.0, face, second.1),
        ).push((third.0, face, third.1))
    }
}

/// The uses of edge `key` among the given half-edges, in order: the face
/// and whether it runs from the lower to the higher index.
pub open spec fn uses_of(half_edges: Seq<(u64, usize, bool)>, key: u64) -> Seq<(usize, bool)>
    decreases half_edges.len(),
{
    if half_edges.len() == 0 {
        Seq::empty()
    } else {
        let rest = uses_of(half_edges.drop_last(), key);
        let last = half_edges.last();
        if last.0 == key {
            rest.push((last.1, last.2))
        } else {
            rest
        }
    }
}

/// The uses of edge `key` by the faces of a triangle list.
pub open spec fn edge_uses(triangles: Seq<[u32; 3]>, key: u64) -> Seq<(usize, bool)> {
    uses_of(face_half_edges(triangles, triangles.len()), key)
}

/// An edge used by exactly two face sides: a manifold adjacency.
pub open spec fn is_manifold_edge(triangles: Seq<[u32; 3]>, key: u64) -> bool {
    edge_uses(triangles, key).len() == 2
}

/// The two uses of a manifold edge run in the same direction, so the two
/// faces disagree in winding unless exactly one of them is reversed.
pub open spec fn same_direction(triangles: Seq<[u32; 3]>, key: u64) -> bool {
    edge_uses(triangles, key)[0].1 == edge_uses(triangles, key)[1].1
}

/// Manifold edge `key` joins faces `a` and `b`.
pub open spec fn links_faces(triangles: Seq<[u32; 3]>, key: u64, a: int, b: int) -> bool {
    &&& is_manifold_edge(triangles, key)
    &&& ((edge_uses(triangles, key)[0].0 == a && edge_uses(triangles, key)[1].0 == b) || (
    edge_uses(triangles, key)[0].0 == b && edge_uses(triangles, key)[1].0 == a))
}

/// Edges used by one face side or by more than two.
pub open spec fn irregular_edges(triangles: Seq<[u32; 3]>) -> Set<u64> {
    Set::new(
        |key: u64| edge_uses(triangles, key).len() > 0 && edge_uses(triangles, key).len() != 2,
    )
}

/// The edge table agrees with the half-edges recorded so far.
spec fn table_matches(
    table: Map<u64, Vec<(usize, bool)>>,
    half_edges: Seq<(u64, usize, bool)>,
) -> bool {
    forall|key: u64|
        #![trigger table.contains_key(key)]
        #![trigger uses_of(half_edges, key)]
        (table.contains_key(key) <==> uses_of(half_edges, key).len() > 0) && (table.contains_key(
            key,
        ) ==> table[key]@ == uses_of(half_edges, key))
}

proof fn lemma_uses_of_push(half_edges: Seq<(u64, usize, bool)>, entry: (u64, usize, bool), key: u64)
    ensures
        uses_of(half_edges.push(entry), key) == if entry.0 == key {
            uses_of(half_edges, key).push((entry.1, entry.2))
        } else {
            uses_of(half_edges, key)
        },
{
    assert(half_edges.push(entry).drop_last() =~= half_edges);
}

fn directed_edge_key(start: u32, end: u32) -> (edge: (u64, bool))
    ensures
        edge == directed_edge(start, end),
{
    if start < end {
        ((start as u64) * 0x1_0000_0000 + (end as u64), true)
    } else {
        ((end as u64) * 0x1_0000_0000 + (start as u64), false)
    }
}

fn record_use(
    table: &mut BTreeMap<u64, Vec<(usize, bool)>>,
    key: u64,
    face: usize,
    forward: bool,
    half_edges: Ghost<Seq<(u64, usize, bool)>>,
)
    requires
        table_matches(old(table)@, half_edges@),
    ensures
        table_matches(final(table)@, half_edges@.push((key, face, forward))),
{
    let ghost after = half_edges@.push((key, face, forward));
    let mut uses = match table.remove(&key) {
        Some(uses) => uses,
        None => Vec::new(),
    };
    proof {
        lemma_uses_of_push(half_edges@, (key, face, forward), key);
    }
    uses.push((face, forward));
    table.insert(key, uses);
    proof {
        assert forall|other: u64|
            (#[trigger] table@.contains_key(other) <==> uses_of(after, other).len() > 0) && (
            table@.contains_key(other) ==> table@[other]@ == uses_of(after, other)) by {
            lemma_uses_of_push(half_edges@, (key, face, forward), other);
        }
    }
}

/// Builds the table of edge uses of every face.
fn edge_table(triangles: &Vec<[u32; 3]>) -> (table: BTreeMap<u64, Vec<(usize, bool)>>)
    ensures
        table_matches(table@, face_half_edges(triangles@, triangles@.len())),
{
    let mut table: BTreeMap<u64, Vec<(usize, bool)>> = BTreeMap::new();
    let mut face: usize = 0;
    while face < triangles.len()
        invariant
            face <= triangles@.len(),
            table_matches(table@, face_half_edges(triangles@, face as nat)),
        decreases triangles@.len() - face,
    {
        let ghost before = face_half_edges(triangles@, face as nat);
        let t = triangles[face];
        let first = directed_edge_key(t[0], t[1]);
        let second = directed_edge_key(t[1], t[2]);
        let third = directed_edge_key(t[2], t[0]);
        record_use(&mut table, first.0, face, first.1, Ghost(before));
        let ghost one = before.push((first.0, face, first.1));
        record_use(&mut table, second.0, face, second.1, Ghost(one));
        let ghost two = one.push((second.0, face, second.1));
        record_use(&mut table, third.0, face, third.1, Ghost(two));
        face = face + 1;
    }
    table
}

proof fn lemma_face_half_edges_len(triangles: Seq<[u32; 3]>, count: nat)
    ensures
        face_half_edges(triangles, count).len() == 3 * count,
    decreases count,
{
    if count > 0 {
        lemma_face_half_edges_len(triangles, (count - 1) as nat);
    }
}

proof fn lemma_used_key_appears(half_edges: Seq<(u64, usize, bool)>, key: u64)
    requires
        uses_of(half_edges, key).len() > 0,
    ensures
        half_edges.map_values(|entry: (u64, usize, bool)| entry.0).contains(key),
    decreases half_edges.len(),
{
    let keys = half_edges.map_values(|entry: (u64, usize, bool)| entry.0);
    if half_edges.last().0 == key {
        assert(keys[half_edges.len() - 1] == key);
    } else {
        let rest = half_edges.drop_last();
        lemma_used_key_appears(rest, key);
        let rest_keys = rest.map_values(|entry: (u64, usize, bool)| entry.0);
        let i = choose|i: int| 0 <= i < rest_keys.len() && rest_keys[i] == key;
        assert(keys[i] == key);
    }
}

proof fn lemma_table_size(table: Map<u64, Vec<(usize, bool)>>, half_edges: Seq<(u64, usize, bool)>)
    requires
        table_matches(table, half_edges),
    ensures
        table.dom().finite(),
        table.dom().len() <= half_edges.len(),
{
    let keys = half_edges.map_values(|entry: (u64, usize, bool)| entry.0);
    assert(table.dom().subset_of(keys.to_set())) by {
        assert forall|key: u64| table.dom().contains(key) implies keys.to_set().contains(key) by {
            assert(table.contains_key(key));
            lemma_used_key_appears(half_edges, key);
        }
    }
    keys.lemma_cardinality_of_set();
    vstd::seq_lib::seq_to_set_is_finite(keys);
    vstd::set_lib::lemma_len_subset(table.dom(), keys.to_set());
}

/// Every adjacency entry of a face names a face that shares a manifold edge
/// with it, and records whether the two uses of that edge run the same way.
pub open spec fn adjacency_sound(triangles: Seq<[u32; 3]>, adjacency: Seq<Vec<(usize, bool)>>) -> bool {
    &&& adjacency.len() == triangles.len()
    &&& forall|face: int, i: int|
        0 <= face < adjacency.len() && 0 <= i < adjacency[face]@.len() ==> {
            let entry = #[trigger] adjacency[face]@[i];
            &&& entry.0 < triangles.len()
            &&& exists|key: u64|
                links_faces(triangles, key, face, entry.0 as int) && entry.1 == same_direction(
                    triangles,
                    key,
                )
        }
}

/// Both faces of manifold edge `key` list each other.
pub open spec fn adjacency_covers(
    triangles: Seq<[u32; 3]>,
    adjacency: Seq<Vec<(usize, bool)>>,
    key: u64,
) -> bool {
    let uses = edge_uses(triangles, key);
    is_manifold_edge(triangles, key) ==> {
        &&& adjacency[uses[0].0 as int]@.contains((uses[1].0, same_direction(triangles, key)))
        &&& adjacency[uses[1].0 as int]@.contains((uses[0].0, same_direction(triangles, key)))
    }
}

proof fn lemma_use_faces_bounded(triangles: Seq<[u32; 3]>, count: nat, key: u64)
    requires
        count <= triangles.len(),
    ensures
        forall|i: int|
            0 <= i < uses_of(face_half_edges(triangles, count), key).len() ==> (#[trigger] uses_of(
                face_half_edges(triangles, count),
                key,
            )[i]).0 < count,
    decreases count,
{
    if count > 0 {
        lemma_use_faces_bounded(triangles, (count - 1) as nat, key);
        let before = face_half_edges(triangles, (count - 1) as nat);
        let face = (count - 1) as usize;
        let t = triangles[count - 1];
        let first = directed_edge(t[0], t[1]);
        let second = directed_edge(t[1], t[2]);
        let third = directed_edge(t[2], t[0]);
        let one = before.push((first.0, face, first.1));
        let two = one.push((second.0, face, second.1));
        lemma_uses_of_push(before, (first.0, face, first.1), key);
        lemma_uses_of_push(one, (second.0, face, second.1), key);
        lemma_uses_of_push(two, (third.0, face, third.1), key);
    }
}

fn push_entry(adjacency: &mut Vec<Vec<(usize, bool)>>, face: usize, entry: (usize, bool))
    requires
        face < old(adjacency)@.len(),
    ensures
        final(adjacency)@.len() == old(adjacency)@.len(),
        final(adjacency)@[face as int]@ == old(adjacency)@[face as int]@.push(entry),
        forall|other: int|
            0 <= other < old(adjacency)@.len() && other != face ==> #[trigger] final(adjacency)@[other]
                == old(adjacency)@[other],
{
    let mut list: Vec<(usize, bool)> = Vec::new();
    adjacency.set_and_swap(face, &mut list);
    list.push(entry);
    adjacency.set_and_swap(face, &mut list);
}

/// Lists, for every face, the faces it shares a manifold edge with, edge by
/// edge in increasing edge order, and counts the irregular edges.
fn build_adjacency(triangles: &Vec<[u32; 3]>, table: &BTreeMap<u64, Vec<(usize, bool)>>) -> (result: (
    Vec<Vec<(usize, bool)>>,
    usize,
))
    requires
        table_matches(table@, face_half_edges(triangles@, triangles@.len())),
        3 * triangles@.len() <= usize::MAX,
    ensures
        adjacency_sound(triangles@, result.0@),
        forall|key: u64| adjacency_covers(triangles@, result.0@, key),
        result.1 == irregular_edges(triangles@).len(),
{
    let ghost all = face_half_edges(triangles@, triangles@.len());
    let face_count = triangles.len();
    let mut adjacency: Vec<Vec<(usize, bool)>> = Vec::new();
    let mut face: usize = 0;
    while face < face_count
        invariant
            face <= face_count,
            face_count == triangles@.len(),
            adjacency@.len() == face,
            forall|f: int| 0 <= f < face ==> (#[trigger] adjacency@[f])@.len() == 0,
        decreases face_count - face,
    {
        adjacency.push(Vec::new());
        face = face + 1;
    }
    let mut irregular: usize = 0;
    let ghost mut counted: Set<u64> = Set::empty();
    proof {
        axiom_spec_keys_iter(table);
    }
    let ghost keys = spec_keys_iter(table).remaining();
    let ghost mut done: int = 0;
    proof {
        lemma_table_size(table@, all);
        lemma_face_half_edges_len(triangles@, triangles@.len());
    }
    for key in it: table.keys()
        invariant
            done == it.index(),
            it.seq() == keys,
            face_count == triangles@.len(),
            all == face_half_edges(triangles@, triangles@.len()),
            table_matches(table@, all),
            it.seq() == spec_keys_iter(table).remaining(),
            it.seq().unref().to_set() == table@.dom(),
            it.seq().no_duplicates(),
            adjacency_sound(triangles@, adjacency@),
            forall|j: int| 0 <= j < it.index() ==> adjacency_covers(triangles@, adjacency@, *#[trigger] it.seq()[j]),
            counted.finite(),
            irregular == counted.len(),
            irregular <= it.index(),
            forall|k: u64| #[trigger] counted.contains(k) <==> (exists|j: int| 0 <= j < it.index() && *it.seq()[j] == k) && edge_uses(triangles@, k).len() != 2,
            keys.unref().to_set() == table@.dom(),
            keys.len() <= 3 * triangles@.len(),
            3 * triangles@.len() <= usize::MAX,
    {
        assert(table@.contains_key(*key)) by {
            assert(it.seq().unref().to_set().contains(*key));
        }
        let uses = table.get(key);
        let ghost before = adjacency@;
        match uses {
            Some(uses) => {
                proof {
                    lemma_use_faces_bounded(triangles@, triangles@.len(), *key);
                }
                if uses.len() == 2 {
                    let first = uses[0];
                    let second = uses[1];
                    let same = first.1 == second.1;
                    proof {
                        assert(links_faces(triangles@, *key, first.0 as int, second.0 as int));
                        assert(links_faces(triangles@, *key, second.0 as int, first.0 as int));
                        assert(same == same_direction(triangles@, *key));
                    }
                    push_entry(&mut adjacency, first.0, (second.0, same));
                    let ghost middle = adjacency@;
                    push_entry(&mut adjacency, second.0, (first.0, same));
                    proof {
                        assert(adjacency@[first.0 as int]@[before[first.0 as int]@.len() as int] == (second.0, same));
                        assert(adjacency@[second.0 as int]@[middle[second.0 as int]@.len() as int] == (first.0, same));
                        assert forall|f: int, i: int|
                            0 <= f < adjacency@.len() && 0 <= i < adjacency@[f]@.len() implies {
                                let entry = #[trigger] adjacency@[f]@[i];
                                &&& entry.0 < triangles@.len()
                                &&& exists|k: u64|
                                    links_faces(triangles@, k, f, entry.0 as int) && entry.1
                                        == same_direction(triangles@, k)
                            } by {
                            let entry = adjacency@[f]@[i];
                            if i < before[f]@.len() {
                                assert(middle[f]@[i] == before[f]@[i]);
                                assert(entry == before[f]@[i]);
                            } else if f == second.0 as int && i == middle[f]@.len() {
                                assert(entry == (first.0, same));
                                assert(links_faces(triangles@, *key, f, entry.0 as int));
                            } else {
                                assert(f == first.0 as int);
                                assert(i == before[f]@.len());
                                assert(middle[f]@[i] == (second.0, same));
                                assert(entry == (second.0, same));
                                assert(links_faces(triangles@, *key, f, entry.0 as int));
                            }
                        }
                        assert(adjacency@[first.0 as int]@.contains((second.0, same)));
                        assert(adjacency@[second.0 as int]@.contains((first.0, same)));
                        assert forall|x: int, i: int| 0 <= x < before.len() && 0 <= i < before[x]@.len() implies #[trigger] middle[x]@[i] == before[x]@[i] by {
                            if x == first.0 as int {
                                assert(middle[x]@ == before[x]@.push((second.0, same)));
                            }
                        }
                        assert forall|x: int, i: int| 0 <= x < middle.len() && 0 <= i < middle[x]@.len() implies #[trigger] adjacency@[x]@[i] == middle[x]@[i] by {
                            if x == second.0 as int {
                                assert(adjacency@[x]@ == middle[x]@.push((first.0, same)));
                            }
                        }
                        assert forall|j: int| 0 <= j < it.index() implies adjacency_covers(triangles@, adjacency@, *#[trigger] it.seq()[j]) by {
                            let k = *it.seq()[j];
                            if is_manifold_edge(triangles@, k) {
                                let u = edge_uses(triangles@, k);
                                let sd = same_direction(triangles@, k);
                                assert(adjacency_covers(triangles@, before, k));
                                lemma_use_faces_bounded(triangles@, triangles@.len(), k);
                                assert(u[0].0 < triangles@.len() && u[1].0 < triangles@.len());
                                let i0 = choose|i: int| 0 <= i < before[u[0].0 as int]@.len() && before[u[0].0 as int]@[i] == (u[1].0, sd);
                                let i1 = choose|i: int| 0 <= i < before[u[1].0 as int]@.len() && before[u[1].0 as int]@[i] == (u[0].0, sd);
                                assert(middle[u[0].0 as int]@[i0] == (u[1].0, sd));
                                assert(middle[u[1].0 as int]@[i1] == (u[0].0, sd));
                                assert(adjacency@[u[0].0 as int]@[i0] == (u[1].0, sd));
                                assert(adjacency@[u[1].0 as int]@[i1] == (u[0].0, sd));
                            }
                        }
                    }
                } else {
                    irregular = irregular + 1;
                    proof {
                        counted = counted.insert(*key);
                    }
                }
            },
            None => {},
        }
        proof {
            done = done + 1;
        }
    }
    proof {
        assert(done == keys.len());
        assert forall|k: u64| #[trigger] counted.contains(k) <==> irregular_edges(triangles@).contains(k) by {
            if irregular_edges(triangles@).contains(k) {
                assert(table@.contains_key(k));
                assert(keys.unref().to_set().contains(k));
                let j = choose|j: int| 0 <= j < keys.unref().len() && keys.unref()[j] == k;
                assert(*keys[j] == k);
            }
            if counted.contains(k) {
                let j = choose|j: int| 0 <= j < done && *keys[j] == k;
                assert(keys.unref()[j] == k);
                assert(keys.unref().to_set().contains(k));
                assert(table@.contains_key(k));
            }
        }
        assert(counted =~= irregular_edges(triangles@));
    }
    (adjacency, irregular)
}

/// How a reversal choice was propagated: `root[f]` is the lowest face of the
/// component holding `f`, which is never reversed and lies at depth zero;
/// every other face hangs off a parent one level nearer the root across a
/// manifold edge, and is reversed exactly when that makes the two faces agree
/// across the edge; no manifold edge joins two components; and the depths of
/// the two faces of a manifold edge differ by at most one. Together these
/// make `depth[f]` the breadth-first distance of `f` from its root: the
/// number of manifold edges on a shortest path between them.
pub open spec fn propagation_forest(
    triangles: Seq<[u32; 3]>,
    flipped: Seq<bool>,
    root: Seq<int>,
    parent: Seq<int>,
    depth: Seq<nat>,
) -> bool {
    let n = triangles.len();
    &&& flipped.len() == n
    &&& root.len() == n
    &&& parent.len() == n
    &&& depth.len() == n
    &&& forall|f: int| 0 <= f < n ==> 0 <= #[trigger] root[f] <= f && root[root[f]] == root[f]
    &&& forall|f: int| 0 <= f < n && #[trigger] root[f] == f ==> !flipped[f]
    &&& forall|f: int|
        0 <= f < n && #[trigger] root[f] != f ==> {
            let p = parent[f];
            &&& 0 <= p < n
            &&& depth[p] + 1 == depth[f]
            &&& root[p] == root[f]
            &&& exists|key: u64|
                links_faces(triangles, key, f, p) && flipped[f] == (flipped[p] != same_direction(
                    triangles,
                    key,
                ))
        }
    &&& forall|f: int| 0 <= f < n && #[trigger] root[f] == f ==> depth[f] == 0
    &&& forall|key: u64|
        #[trigger] is_manifold_edge(triangles, key) ==> {
            let a = edge_uses(triangles, key)[0].0 as int;
            let b = edge_uses(triangles, key)[1].0 as int;
            &&& root[a] == root[b]
            &&& depth[a] <= depth[b] + 1
            &&& depth[b] <= depth[a] + 1
        }
}

/// The components list every face exactly once, each led by its root, in
/// increasing order of roots.
pub open spec fn components_match(components: Seq<Vec<usize>>, root: Seq<int>, n: int) -> bool {
    &&& forall|c: int|
        0 <= c < components.len() ==> {
            let list = #[trigger] components[c]@;
            &&& list.len() > 0
            &&& list.no_duplicates()
            &&& root[list[0] as int] == list[0] as int
            &&& forall|i: int|
                #![trigger list[i]]
                0 <= i < list.len() ==> list[i] < n && root[list[i] as int] == list[0] as int
        }
    &&& forall|c: int, d: int|
        0 <= c < d < components.len() ==> (#[trigger] components[c])@[0] < (
        #[trigger] components[d])@[0]
    &&& forall|f: int| 0 <= f < n ==> #[trigger] listed_in(components, f)
}

/// Faces `a` and `b` share a manifold edge.
pub open spec fn faces_adjacent(triangles: Seq<[u32; 3]>, a: int, b: int) -> bool {
    exists|key: u64| #[trigger] links_faces(triangles, key, a, b)
}

/// In the visiting order `list`, face `list[i]` hangs off the earlier face
/// `list[j]`, and no face adjacent to it was visited before `list[j]`.
pub open spec fn found_by(
    triangles: Seq<[u32; 3]>,
    list: Seq<usize>,
    parent: Seq<int>,
    i: int,
    j: int,
) -> bool {
    &&& 0 <= j < i
    &&& list[j] as int == parent[list[i] as int]
    &&& forall|k: int|
        0 <= k < list.len() && #[trigger] faces_adjacent(triangles, list[k] as int, list[i] as int)
            ==> j <= k
}

/// Face `list[i]` hangs off a face visited before it.
pub open spec fn has_finder(triangles: Seq<[u32; 3]>, list: Seq<usize>, parent: Seq<int>, i: int) -> bool {
    exists|j: int| #[trigger] found_by(triangles, list, parent, i, j)
}

/// Each component list is the order in which its faces were visited, and
/// every face after the first hangs off the earliest visited face adjacent
/// to it.
pub open spec fn visited_in_order(
    triangles: Seq<[u32; 3]>,
    components: Seq<Vec<usize>>,
    parent: Seq<int>,
) -> bool {
    forall|c: int, i: int|
        0 <= c < components.len() && 0 < i < components[c]@.len() ==> #[trigger] has_finder(
            triangles,
            components[c]@,
            parent,
            i,
        )
}

/// Face `f` appears in one of the component lists.
pub open spec fn listed_in(components: Seq<Vec<usize>>, f: int) -> bool {
    exists|c: int| 0 <= c < components.len() && #[trigger] components[c]@.contains(f as usize)
}

/// Reversal choices made so far, with the ghost forest that justifies them.
struct Propagation {
    parity: Vec<Option<bool>>,
    root: Ghost<Seq<int>>,
    parent: Ghost<Seq<int>>,
    depth: Ghost<Seq<nat>>,
}

/// Forest facts about the faces assigned so far.
#[verifier::opaque]
spec fn partial_forest(triangles: Seq<[u32; 3]>, st: Propagation) -> bool {
    let n = triangles.len();
    let parity = st.parity@;
    let root = st.root@;
    let parent = st.parent@;
    let depth = st.depth@;
    &&& parity.len() == n
    &&& root.len() == n
    &&& parent.len() == n
    &&& depth.len() == n
    &&& forall|f: int|
        0 <= f < n && #[trigger] parity[f] is Some ==> {
            &&& 0 <= root[f] <= f
            &&& parity[root[f]] is Some
            &&& root[root[f]] == root[f]
        }
    &&& forall|f: int|
        0 <= f < n && #[trigger] parity[f] is Some && root[f] == f ==> parity[f] == Some(false)
            && depth[f] == 0
    &&& forall|f: int|
        0 <= f < n && #[trigger] parity[f] is Some && root[f] != f ==> {
            let p = parent[f];
            &&& 0 <= p < n
            &&& parity[p] is Some
            &&& depth[p] + 1 == depth[f]
            &&& root[p] == root[f]
            &&& exists|key: u64|
                links_faces(triangles, key, f, p) && parity[f]->0 == (parity[p]->0
                    != same_direction(triangles, key))
        }
}

/// `after` keeps every choice made in `before`, and each new choice belongs
/// to the component rooted at `start`.
#[verifier::opaque]
spec fn extends(before: Propagation, after: Propagation, n: int, start: int) -> bool {
    &&& after.parity@.len() == before.parity@.len()
    &&& forall|f: int|
        0 <= f < n && #[trigger] before.parity@[f] is Some ==> after.parity@[f]
            == before.parity@[f] && after.root@[f] == before.root@[f] && after.depth@[f]
            == before.depth@[f] && after.parent@[f] == before.parent@[f]
    &&& forall|f: int|
        0 <= f < n && #[trigger] after.parity@[f] is Some ==> before.parity@[f] is Some
            || after.root@[f] == start
}

/// The queue lists exactly the faces of the component rooted at `start`
/// assigned so far, once each, beginning with `start`.
#[verifier::opaque]
spec fn queue_tracks(queue: Seq<usize>, st: Propagation, start: int, n: int) -> bool {
    &&& queue.len() > 0
    &&& queue[0] == start
    &&& queue.no_duplicates()
    &&& forall|j: int| 0 <= j < queue.len() ==> #[trigger] queue[j] < n
    &&& forall|f: int|
        0 <= f < n ==> (queue.contains(f as usize) <==> (#[trigger] st.parity@[f] is Some
            && st.root@[f] == start))
}

/// Every neighbor of face `f` is assigned, shares its root, and lies at
/// most one level deeper.
spec fn closed_at(adjacency: Seq<Vec<(usize, bool)>>, st: Propagation, f: int) -> bool {
    forall|i: int|
        0 <= i < adjacency[f]@.len() ==> {
            let g = (#[trigger] adjacency[f]@[i]).0 as int;
            st.parity@[g] is Some && st.root@[g] == st.root@[f] && st.depth@[g] <= st.depth@[f]
                + 1
        }
}

/// The queue holds faces in order of depth, none more than one level deeper
/// than `top`.
#[verifier::opaque]
spec fn queue_layered(queue: Seq<usize>, st: Propagation, top: int) -> bool {
    &&& forall|j: int, k: int|
        0 <= j <= k < queue.len() ==> st.depth@[#[trigger] queue[j] as int] <= st.depth@[
            #[trigger] queue[k] as int]
    &&& forall|k: int| 0 <= k < queue.len() ==> st.depth@[#[trigger] queue[k] as int] <= top + 1
}

proof fn lemma_closed_preserved(
    triangles: Seq<[u32; 3]>,
    adjacency: Seq<Vec<(usize, bool)>>,
    before: Propagation,
    after: Propagation,
    start: int,
    f: int,
)
    requires
        adjacency_sound(triangles, adjacency),
        before.parity@.len() == triangles.len(),
        extends(before, after, triangles.len() as int, start),
        0 <= f < triangles.len(),
        before.parity@[f] is Some,
        closed_at(adjacency, before, f),
    ensures
        closed_at(adjacency, after, f),
{
    reveal(extends);
    assert forall|i: int| 0 <= i < adjacency[f]@.len() implies {
        let g = (#[trigger] adjacency[f]@[i]).0 as int;
        after.parity@[g] is Some && after.root@[g] == after.root@[f] && after.depth@[g]
            <= after.depth@[f] + 1
    } by {
        let g = adjacency[f]@[i].0 as int;
        assert(0 <= g < triangles.len());
        assert(before.parity@[g] is Some);
    }
}

/// Every neighbor lists its neighbor back, with the same direction flag.
#[verifier::opaque]
spec fn adjacency_symmetric(adjacency: Seq<Vec<(usize, bool)>>) -> bool {
    forall|f: int, i: int|
        0 <= f < adjacency.len() && 0 <= i < adjacency[f]@.len() ==> {
            let entry = #[trigger] adjacency[f]@[i];
            adjacency[entry.0 as int]@.contains((f as usize, entry.1))
        }
}

proof fn lemma_adjacency_symmetric(triangles: Seq<[u32; 3]>, adjacency: Seq<Vec<(usize, bool)>>)
    requires
        adjacency_sound(triangles, adjacency),
        forall|key: u64| adjacency_covers(triangles, adjacency, key),
    ensures
        adjacency_symmetric(adjacency),
{
    reveal(adjacency_symmetric);
    assert forall|f: int, i: int|
        0 <= f < adjacency.len() && 0 <= i < adjacency[f]@.len() implies {
            let entry = #[trigger] adjacency[f]@[i];
            adjacency[entry.0 as int]@.contains((f as usize, entry.1))
        } by {
        let entry = adjacency[f]@[i];
        let key = choose|key: u64|
            links_faces(triangles, key, f, entry.0 as int) && entry.1 == same_direction(triangles, key);
        assert(adjacency_covers(triangles, adjacency, key));
    }
}

/// Every face below `start` has been assigned.
spec fn settled_below(st: Propagation, start: int) -> bool {
    forall|f: int| 0 <= f < start ==> #[trigger] st.parity@[f] is Some
}

/// The propagation state has one slot per face.
spec fn sized(st: Propagation, n: int) -> bool {
    &&& st.parity@.len() == n
    &&& st.root@.len() == n
    &&& st.parent@.len() == n
    &&& st.depth@.len() == n
}

/// Faces outside the component rooted at `start` are closed.
#[verifier::opaque]
spec fn others_closed(adjacency: Seq<Vec<(usize, bool)>>, st: Propagation, start: int, n: int) -> bool {
    forall|f: int|
        0 <= f < n && #[trigger] st.parity@[f] is Some && st.root@[f] != start ==> closed_at(
            adjacency,
            st,
            f,
        )
}

proof fn lemma_extends_trans(a: Propagation, b: Propagation, c: Propagation, n: int, start: int)
    requires
        a.parity@.len() == n,
        extends(a, b, n, start),
        extends(b, c, n, start),
    ensures
        extends(a, c, n, start),
{
    reveal(extends);
    assert forall|f: int| 0 <= f < n && #[trigger] c.parity@[f] is Some implies a.parity@[f] is Some
        || c.root@[f] == start by {
        if b.parity@[f] is Some && !(a.parity@[f] is Some) {
            assert(b.root@[f] == start);
        }
    }
}

proof fn lemma_others_closed_preserved(
    triangles: Seq<[u32; 3]>,
    adjacency: Seq<Vec<(usize, bool)>>,
    before: Propagation,
    after: Propagation,
    start: int,
)
    requires
        adjacency_sound(triangles, adjacency),
        before.parity@.len() == triangles.len(),
        extends(before, after, triangles.len() as int, start),
        others_closed(adjacency, before, start, triangles.len() as int),
    ensures
        others_closed(adjacency, after, start, triangles.len() as int),
{
    reveal(others_closed);
    reveal(extends);
    let n = triangles.len() as int;
    assert forall|f: int|
        0 <= f < n && #[trigger] after.parity@[f] is Some && after.root@[f] != start implies closed_at(
            adjacency,
            after,
            f,
        ) by {
        assert(before.parity@[f] is Some);
        lemma_closed_preserved(triangles, adjacency, before, after, start, f);
    }
}

fn visit_neighbor(
    st: &mut Propagation,
    queue: &mut Vec<usize>,
    triangles: &Vec<[u32; 3]>,
    adjacency: &Vec<Vec<(usize, bool)>>,
    face: usize,
    start: usize,
    i: usize,
    Ghost(head): Ghost<int>,
)
    requires
        adjacency_sound(triangles@, adjacency@),
        adjacency_symmetric(adjacency@),
        partial_forest(triangles@, *old(st)),
        queue_tracks(old(queue)@, *old(st), start as int, triangles@.len() as int),
        others_closed(adjacency@, *old(st), start as int, triangles@.len() as int),
        face < triangles@.len(),
        start < triangles@.len(),
        i < adjacency@[face as int]@.len(),
        old(st).parity@[face as int] is Some,
        old(st).root@[face as int] == start,
        sized(*old(st), triangles@.len() as int),
        settled_below(*old(st), start as int),
        queue_layered(old(queue)@, *old(st), old(st).depth@[face as int] as int),
        0 <= head < old(queue)@.len(),
        old(queue)@[head] == face,
        forall|j: int| 0 <= j < head ==> closed_at(adjacency@, *old(st), #[trigger] old(queue)@[j] as int),
        discovery_order(old(queue)@, *old(st), adjacency@),
    ensures
        sized(*final(st), triangles@.len() as int),
        partial_forest(triangles@, *final(st)),
        queue_tracks(final(queue)@, *final(st), start as int, triangles@.len() as int),
        queue_layered(final(queue)@, *final(st), old(st).depth@[face as int] as int),
        discovery_order(final(queue)@, *final(st), adjacency@),
        extends(*old(st), *final(st), triangles@.len() as int, start as int),
        ({
            let g = adjacency@[face as int]@[i as int].0 as int;
            final(st).parity@[g] is Some && final(st).root@[g] == start && final(st).depth@[g]
                <= old(st).depth@[face as int] + 1
        }),
        old(queue)@.len() <= final(queue)@.len(),
        forall|j: int| 0 <= j < old(queue)@.len() ==> #[trigger] final(queue)@[j] == old(queue)@[j],
{
    let face_count = triangles.len();
    let ghost n = face_count as int;
    let (neighbor, must_differ) = adjacency[face][i];
    proof {
        assert(adjacency@[face as int]@[i as int] == (neighbor, must_differ));
        assert(neighbor < n);
    }
    if st.parity[neighbor].is_none() {
        let current = match st.parity[face] {
            Some(value) => value,
            None => false,
        };
        let ghost before = *st;
        let ghost before_queue = queue@;
        proof {
            reveal(queue_tracks);
            if queue@.contains(neighbor) {
                assert(st.parity@[neighbor as int] is Some);
            }
            lemma_distinct_entries_len(queue@.push(neighbor).map_values(|x: usize| x as int), n);
            assert(neighbor >= start) by {
                if neighbor < start {
                    assert(st.parity@[neighbor as int] is Some);
                }
            }
        }
        st.parity.set(neighbor, Some(current != must_differ));
        proof {
            st.root@ = st.root@.update(neighbor as int, start as int);
            st.parent@ = st.parent@.update(neighbor as int, face as int);
            st.depth@ = st.depth@.update(neighbor as int, st.depth@[face as int] + 1);
            lemma_assign_extends(
                triangles@,
                adjacency@,
                before,
                *st,
                face as int,
                i as int,
                start as int,
            );
        }
        queue.push(neighbor);
        proof {
            lemma_queue_push(before_queue, before, *st, neighbor, start as int, n);
            lemma_layered_push(before_queue, before, *st, neighbor, start as int, n, before.depth@[face as int] as int);
            lemma_queue_facts(before_queue, before, start as int, n);
            assert forall|j: int| 0 <= j < before_queue.len() implies st.parent@[#[trigger] before_queue[j] as int]
                == before.parent@[before_queue[j] as int] by {
                assert(before.parity@[before_queue[j] as int] is Some);
            }
            assert forall|k: int, e: int|
                0 <= k < head && 0 <= e < adjacency@[before_queue[k] as int]@.len() implies #[trigger] adjacency@[before_queue[k] as int]@[e].0 != neighbor by {
                assert(closed_at(adjacency@, before, before_queue[k] as int));
            }
            lemma_discovery_push(before_queue, before, *st, adjacency@, neighbor, head);
        }
    } else {
        proof {
            reveal(extends);
            reveal(others_closed);
            reveal(adjacency_symmetric);
            reveal(partial_forest);
            let g = neighbor as int;
            if st.root@[g] != start as int {
                assert(adjacency@[g]@.contains((face, must_differ)));
                let k = choose|k: int| 0 <= k < adjacency@[g]@.len() && adjacency@[g]@[k] == (face, must_differ);
                assert(closed_at(adjacency@, *st, g));
                assert(st.root@[face as int] == st.root@[g]);
            }
            reveal(queue_tracks);
            reveal(queue_layered);
            assert(queue@.contains(neighbor));
            let j = choose|j: int| 0 <= j < queue@.len() && queue@[j] == neighbor;
            assert(st.depth@[queue@[j] as int] <= st.depth@[face as int] + 1);
        }
    }
}

proof fn lemma_layered_push(
    before_queue: Seq<usize>,
    before: Propagation,
    after: Propagation,
    neighbor: usize,
    start: int,
    n: int,
    top: int,
)
    requires
        queue_tracks(before_queue, before, start, n),
        queue_layered(before_queue, before, top),
        0 <= neighbor < n,
        before.parity@[neighbor as int] is None,
        after.depth@[neighbor as int] == top + 1,
        forall|f: int| 0 <= f < n && f != neighbor ==> #[trigger] after.depth@[f] == before.depth@[f],
    ensures
        queue_layered(before_queue.push(neighbor), after, top),
{
    lemma_queue_facts(before_queue, before, start, n);
    reveal(queue_layered);
    let queue = before_queue.push(neighbor);
    assert forall|k: int| 0 <= k < before_queue.len() implies after.depth@[#[trigger] queue[k] as int]
        == before.depth@[before_queue[k] as int] by {
        assert(queue[k] == before_queue[k]);
        assert(before.parity@[before_queue[k] as int] is Some);
    }
    assert forall|j: int, k: int| 0 <= j <= k < queue.len() implies after.depth@[#[trigger] queue[j] as int]
        <= after.depth@[#[trigger] queue[k] as int] by {
        if k < before_queue.len() {
            assert(before.depth@[before_queue[j] as int] <= before.depth@[before_queue[k] as int]);
        } else if j < before_queue.len() {
            assert(before.depth@[before_queue[j] as int] <= top + 1);
        }
    }
    assert forall|k: int| 0 <= k < queue.len() implies after.depth@[#[trigger] queue[k] as int] <= top + 1 by {
        if k < before_queue.len() {
            assert(before.depth@[before_queue[k] as int] <= top + 1);
        }
    }
}

/// Face `queue[i]` was found by `queue[j]`, its parent, and no face queued
/// before its parent lists it as a neighbor.
spec fn discovered_by(
    queue: Seq<usize>,
    st: Propagation,
    adjacency: Seq<Vec<(usize, bool)>>,
    i: int,
    j: int,
) -> bool {
    &&& 0 <= j < i
    &&& queue[j] as int == st.parent@[queue[i] as int]
    &&& forall|k: int, e: int|
        0 <= k < queue.len() && 0 <= e < adjacency[queue[k] as int]@.len()
            && #[trigger] adjacency[queue[k] as int]@[e].0 == queue[i] ==> j <= k
}

/// Face `queue[i]` was found by some face queued earlier.
spec fn has_discoverer(queue: Seq<usize>, st: Propagation, adjacency: Seq<Vec<(usize, bool)>>, i: int) -> bool {
    exists|j: int| #[trigger] discovered_by(queue, st, adjacency, i, j)
}

/// Every queued face after the first was found by a face queued earlier.
#[verifier::opaque]
spec fn discovery_order(queue: Seq<usize>, st: Propagation, adjacency: Seq<Vec<(usize, bool)>>) -> bool {
    forall|i: int| 0 < i < queue.len() ==> #[trigger] has_discoverer(queue, st, adjacency, i)
}

proof fn lemma_discovery_push(
    queue: Seq<usize>,
    before: Propagation,
    after: Propagation,
    adjacency: Seq<Vec<(usize, bool)>>,
    neighbor: usize,
    head: int,
)
    requires
        discovery_order(queue, before, adjacency),
        0 <= head < queue.len(),
        after.parent@[neighbor as int] == queue[head] as int,
        forall|j: int| 0 <= j < queue.len() ==> after.parent@[#[trigger] queue[j] as int] == before.parent@[queue[j] as int],
        forall|k: int, e: int|
            0 <= k < head && 0 <= e < adjacency[queue[k] as int]@.len() ==> #[trigger] adjacency[queue[k] as int]@[e].0 != neighbor,
    ensures
        discovery_order(queue.push(neighbor), after, adjacency),
{
    reveal(discovery_order);
    let q = queue.push(neighbor);
    assert forall|i: int| 0 < i < q.len() implies #[trigger] has_discoverer(q, after, adjacency, i) by {
        if i < queue.len() {
            assert(q[i] == queue[i]);
            assert(has_discoverer(queue, before, adjacency, i));
            let j = choose|j: int| #[trigger] discovered_by(queue, before, adjacency, i, j);
            assert(q[j] == queue[j]);
            assert forall|k: int, e: int|
                0 <= k < q.len() && 0 <= e < adjacency[q[k] as int]@.len()
                    && #[trigger] adjacency[q[k] as int]@[e].0 == q[i] implies j <= k by {
                if k < queue.len() {
                    assert(q[k] == queue[k]);
                    assert(adjacency[queue[k] as int]@[e].0 == queue[i]);
                }
            }
            assert(discovered_by(q, after, adjacency, i, j));
        } else {
            assert(q[head] == queue[head]);
            assert forall|k: int, e: int|
                0 <= k < q.len() && 0 <= e < adjacency[q[k] as int]@.len()
                    && #[trigger] adjacency[q[k] as int]@[e].0 == q[i] implies head <= k by {
                if k < head {
                    assert(q[k] == queue[k]);
                    assert(adjacency[queue[k] as int]@[e].0 != neighbor);
                }
            }
            assert(discovered_by(q, after, adjacency, i, head));
        }
    }
}

proof fn lemma_discovery_kept(
    queue: Seq<usize>,
    before: Propagation,
    after: Propagation,
    adjacency: Seq<Vec<(usize, bool)>>,
)
    requires
        discovery_order(queue, before, adjacency),
        forall|j: int| 0 <= j < queue.len() ==> after.parent@[#[trigger] queue[j] as int] == before.parent@[queue[j] as int],
    ensures
        discovery_order(queue, after, adjacency),
{
    reveal(discovery_order);
    assert forall|i: int| 0 < i < queue.len() implies #[trigger] has_discoverer(queue, after, adjacency, i) by {
        assert(has_discoverer(queue, before, adjacency, i));
        let j = choose|j: int| #[trigger] discovered_by(queue, before, adjacency, i, j);
        assert(discovered_by(queue, after, adjacency, i, j));
    }
}

proof fn lemma_layered_advance(queue: Seq<usize>, st: Propagation, head: int, top: int)
    requires
        queue_layered(queue, st, top),
        0 <= head,
        head + 1 < queue.len(),
        st.depth@[queue[head] as int] == top,
    ensures
        queue_layered(queue, st, st.depth@[queue[head + 1] as int] as int),
{
    reveal(queue_layered);
    assert(st.depth@[queue[head] as int] <= st.depth@[queue[head + 1] as int]);
}

proof fn lemma_queue_push(
    before_queue: Seq<usize>,
    before: Propagation,
    after: Propagation,
    neighbor: usize,
    start: int,
    n: int,
)
    requires
        queue_tracks(before_queue, before, start, n),
        0 <= neighbor < n,
        n <= usize::MAX,
        before.parity@[neighbor as int] is None,
        after.parity@[neighbor as int] is Some,
        after.root@[neighbor as int] == start,
        forall|f: int|
            0 <= f < n && f != neighbor ==> #[trigger] after.parity@[f] == before.parity@[f]
                && after.root@[f] == before.root@[f],
    ensures
        queue_tracks(before_queue.push(neighbor), after, start, n),
{
    reveal(queue_tracks);
    let queue = before_queue.push(neighbor);
    assert(!before_queue.contains(neighbor));
    assert forall|a: int, b: int|
        0 <= a < queue.len() && 0 <= b < queue.len() && a != b implies queue[a] != queue[b] by {
        if a == before_queue.len() {
            assert(!before_queue.contains(queue[b]) || queue[a] != queue[b]);
        } else if b == before_queue.len() {
            assert(!before_queue.contains(queue[a]) || queue[a] != queue[b]);
        }
    }
    assert forall|f: int| 0 <= f < n implies (queue.contains(f as usize) <==> (
    #[trigger] after.parity@[f] is Some && after.root@[f] == start)) by {
        if f == neighbor as int {
            assert(queue[before_queue.len() as int] == neighbor);
        } else {
            assert(after.parity@[f] == before.parity@[f]);
            if queue.contains(f as usize) {
                let j = choose|j: int| 0 <= j < queue.len() && queue[j] == f as usize;
                assert(j < before_queue.len());
                assert(before_queue[j] == f as usize);
            }
            if before_queue.contains(f as usize) {
                let j = choose|j: int| 0 <= j < before_queue.len() && before_queue[j] == f as usize;
                assert(queue[j] == f as usize);
            }
        }
    }
}

proof fn lemma_assign_extends(
    triangles: Seq<[u32; 3]>,
    adjacency: Seq<Vec<(usize, bool)>>,
    before: Propagation,
    after: Propagation,
    face: int,
    i: int,
    start: int,
)
    requires
        adjacency_sound(triangles, adjacency),
        partial_forest(triangles, before),
        0 <= face < triangles.len(),
        0 <= start < triangles.len(),
        0 <= i < adjacency[face]@.len(),
        before.parity@[face] is Some,
        before.root@[face] == start,
        before.parity@[start] is Some,
        before.root@[start] == start,
        adjacency[face]@[i].0 >= start,
        ({
            let (g, md) = adjacency[face]@[i];
            &&& before.parity@[g as int] is None
            &&& after.parity@ == before.parity@.update(g as int, Some(before.parity@[face]->0 != md))
            &&& after.root@ == before.root@.update(g as int, start)
            &&& after.parent@ == before.parent@.update(g as int, face)
            &&& after.depth@ == before.depth@.update(g as int, before.depth@[face] + 1)
        }),
    ensures
        partial_forest(triangles, after),
        extends(before, after, triangles.len() as int, start),
{
    reveal(partial_forest);
    reveal(extends);
    let n = triangles.len() as int;
    let (g, md) = adjacency[face]@[i];
    let g = g as int;
    assert(0 <= g < n);
    let key = choose|key: u64| links_faces(triangles, key, face, g) && md == same_direction(triangles, key);
    assert(links_faces(triangles, key, g, face));
    assert forall|f: int| 0 <= f < n && #[trigger] after.parity@[f] is Some implies {
        &&& 0 <= after.root@[f] <= f
        &&& after.parity@[after.root@[f]] is Some
        &&& after.root@[after.root@[f]] == after.root@[f]
    } by {
        if f != g {
            assert(before.parity@[f] is Some);
            assert(before.parity@[before.root@[f]] is Some);
        }
    }
    assert forall|f: int| 0 <= f < n && #[trigger] after.parity@[f] is Some && after.root@[f] == f implies after.parity@[f] == Some(false) by {
        if f != g {
            assert(before.parity@[f] is Some);
        }
    }
    assert forall|f: int| 0 <= f < n && #[trigger] after.parity@[f] is Some && after.root@[f] != f implies {
        let p = after.parent@[f];
        &&& 0 <= p < n
        &&& after.parity@[p] is Some
        &&& after.depth@[p] + 1 == after.depth@[f]
        &&& after.root@[p] == after.root@[f]
        &&& exists|k: u64|
            links_faces(triangles, k, f, p) && after.parity@[f]->0 == (after.parity@[p]->0
                != same_direction(triangles, k))
    } by {
        if f == g {
            assert(after.parent@[f] == face);
            assert(links_faces(triangles, key, f, face) && after.parity@[f]->0 == (after.parity@[face]->0
                != same_direction(triangles, key)));
        } else {
            assert(before.parity@[f] is Some);
            let p = before.parent@[f];
            assert(before.parity@[p] is Some);
            assert(p != g);
            let k = choose|k: u64| links_faces(triangles, k, f, p) && before.parity@[f]->0 == (before.parity@[p]->0
                != same_direction(triangles, k));
            assert(links_faces(triangles, k, f, p) && after.parity@[f]->0 == (after.parity@[p]->0
                != same_direction(triangles, k)));
        }
    }
}

proof fn lemma_extends_keeps(before: Propagation, after: Propagation, n: int, start: int)
    requires
        extends(before, after, n, start),
    ensures
        after.parity@.len() == before.parity@.len(),
        forall|f: int|
            0 <= f < n && #[trigger] before.parity@[f] is Some ==> after.parity@[f]
                == before.parity@[f] && after.root@[f] == before.root@[f] && after.depth@[f]
                == before.depth@[f] && after.parent@[f] == before.parent@[f],
        forall|f: int|
            0 <= f < n && #[trigger] after.parity@[f] is Some ==> before.parity@[f] is Some
                || after.root@[f] == start,
{
    reveal(extends);
}

proof fn lemma_extends_refl(st: Propagation, n: int, start: int)
    ensures
        extends(st, st, n, start),
{
    reveal(extends);
}

proof fn lemma_queue_facts(queue: Seq<usize>, st: Propagation, start: int, n: int)
    requires
        queue_tracks(queue, st, start, n),
    ensures
        queue.len() > 0,
        queue[0] == start,
        queue.len() <= n,
        forall|j: int| 0 <= j < queue.len() ==> #[trigger] queue[j] < n,
        forall|j: int|
            0 <= j < queue.len() ==> st.parity@[#[trigger] queue[j] as int] is Some
                && st.root@[queue[j] as int] == start,
{
    reveal(queue_tracks);
    assert forall|j: int| 0 <= j < queue.len() implies st.parity@[#[trigger] queue[j] as int] is Some
        && st.root@[queue[j] as int] == start by {
        assert(queue.contains(queue[j]));
        assert((queue[j] as int) as usize == queue[j]);
    }
    let as_ints = queue.map_values(|x: usize| x as int);
    assert(as_ints.no_duplicates());
    lemma_distinct_entries_len(as_ints, n);
}

fn visit(
    st: &mut Propagation,
    queue: &mut Vec<usize>,
    triangles: &Vec<[u32; 3]>,
    adjacency: &Vec<Vec<(usize, bool)>>,
    face: usize,
    start: usize,
    Ghost(head): Ghost<int>,
)
    requires
        adjacency_sound(triangles@, adjacency@),
        adjacency_symmetric(adjacency@),
        sized(*old(st), triangles@.len() as int),
        partial_forest(triangles@, *old(st)),
        queue_tracks(old(queue)@, *old(st), start as int, triangles@.len() as int),
        queue_layered(old(queue)@, *old(st), old(st).depth@[face as int] as int),
        0 <= head < old(queue)@.len(),
        old(queue)@[head] == face,
        forall|j: int| 0 <= j < head ==> closed_at(adjacency@, *old(st), #[trigger] old(queue)@[j] as int),
        discovery_order(old(queue)@, *old(st), adjacency@),
        others_closed(adjacency@, *old(st), start as int, triangles@.len() as int),
        face < triangles@.len(),
        start < triangles@.len(),
        old(st).parity@[face as int] is Some,
        old(st).root@[face as int] == start,
        settled_below(*old(st), start as int),
    ensures
        sized(*final(st), triangles@.len() as int),
        partial_forest(triangles@, *final(st)),
        queue_tracks(final(queue)@, *final(st), start as int, triangles@.len() as int),
        queue_layered(final(queue)@, *final(st), old(st).depth@[face as int] as int),
        discovery_order(final(queue)@, *final(st), adjacency@),
        others_closed(adjacency@, *final(st), start as int, triangles@.len() as int),
        extends(*old(st), *final(st), triangles@.len() as int, start as int),
        closed_at(adjacency@, *final(st), face as int),
        old(queue)@.len() <= final(queue)@.len(),
        forall|j: int| 0 <= j < old(queue)@.len() ==> #[trigger] final(queue)@[j] == old(queue)@[j],
{
    let ghost n = triangles@.len() as int;
    let ghost initial = *st;
    let ghost initial_queue = queue@;
    proof {
        lemma_extends_refl(initial, n, start as int);
    }
    let count = adjacency[face].len();
    let mut i: usize = 0;
    while i < count
        invariant
            n == triangles@.len(),
            face < n,
            start < n,
            count == adjacency@[face as int]@.len(),
            adjacency_sound(triangles@, adjacency@),
            adjacency_symmetric(adjacency@),
            sized(*st, n),
            partial_forest(triangles@, *st),
            queue_tracks(queue@, *st, start as int, n),
            queue_layered(queue@, *st, initial.depth@[face as int] as int),
            discovery_order(queue@, *st, adjacency@),
            0 <= head < initial_queue.len(),
            initial_queue[head] == face,
            forall|j: int| 0 <= j < head ==> closed_at(adjacency@, initial, #[trigger] initial_queue[j] as int),
            queue_tracks(initial_queue, initial, start as int, n),
            others_closed(adjacency@, *st, start as int, n),
            extends(initial, *st, n, start as int),
            initial.parity@.len() == n,
            initial.parity@[face as int] is Some,
            initial.root@[face as int] == start,
            settled_below(*st, start as int),
            i <= count,
            forall|k: int| 0 <= k < i ==> {
                let g = (#[trigger] adjacency@[face as int]@[k]).0 as int;
                st.parity@[g] is Some && st.root@[g] == start as int && st.depth@[g]
                    <= initial.depth@[face as int] + 1
            },
            initial_queue.len() <= queue@.len(),
            forall|j: int| 0 <= j < initial_queue.len() ==> #[trigger] queue@[j] == initial_queue[j],
        decreases count - i,
    {
        let ghost before = *st;
        let ghost before_queue = queue@;
        proof {
            lemma_extends_keeps(initial, before, n, start as int);
            lemma_queue_facts(initial_queue, initial, start as int, n);
            assert forall|j: int| 0 <= j < head implies closed_at(adjacency@, *st, #[trigger] queue@[j] as int) by {
                assert(queue@[j] == initial_queue[j]);
                assert(initial.parity@[initial_queue[j] as int] is Some);
                lemma_closed_preserved(triangles@, adjacency@, initial, *st, start as int, initial_queue[j] as int);
            }
            assert(queue@[head] == face);
        }
        visit_neighbor(st, queue, triangles, adjacency, face, start, i, Ghost(head));
        proof {
            lemma_others_closed_preserved(triangles@, adjacency@, before, *st, start as int);
            lemma_extends_trans(initial, before, *st, n, start as int);
            lemma_extends_keeps(before, *st, n, start as int);
            assert forall|f: int| 0 <= f < start implies #[trigger] st.parity@[f] is Some by {
                assert(before.parity@[f] is Some);
            }
            assert forall|k: int| 0 <= k < i + 1 implies {
                let g = (#[trigger] adjacency@[face as int]@[k]).0 as int;
                st.parity@[g] is Some && st.root@[g] == start as int && st.depth@[g]
                    <= initial.depth@[face as int] + 1
            } by {
                if k < i {
                    let g = adjacency@[face as int]@[k].0 as int;
                    assert(before.parity@[g] is Some);
                    assert(0 <= g < n) by {
                        assert(adjacency@[face as int]@[k].0 < triangles@.len());
                    }
                }
            }
            assert forall|j: int| 0 <= j < initial_queue.len() implies #[trigger] queue@[j] == initial_queue[j] by {
                assert(before_queue[j] == initial_queue[j]);
            }
        }
        i = i + 1;
    }
    proof {
        lemma_extends_keeps(initial, *st, n, start as int);
        assert forall|k: int| 0 <= k < adjacency@[face as int]@.len() implies {
            let g = (#[trigger] adjacency@[face as int]@[k]).0 as int;
            st.parity@[g] is Some && st.root@[g] == st.root@[face as int] && st.depth@[g]
                <= st.depth@[face as int] + 1
        } by {}
    }
}

/// Faces assigned so far are all closed.
#[verifier::opaque]
spec fn all_closed(adjacency: Seq<Vec<(usize, bool)>>, st: Propagation, n: int) -> bool {
    forall|f: int| 0 <= f < n && #[trigger] st.parity@[f] is Some ==> closed_at(adjacency, st, f)
}

fn explore(
    st: &mut Propagation,
    triangles: &Vec<[u32; 3]>,
    adjacency: &Vec<Vec<(usize, bool)>>,
    start: usize,
) -> (queue: Vec<usize>)
    requires
        adjacency_sound(triangles@, adjacency@),
        adjacency_symmetric(adjacency@),
        sized(*old(st), triangles@.len() as int),
        partial_forest(triangles@, *old(st)),
        all_closed(adjacency@, *old(st), triangles@.len() as int),
        start < triangles@.len(),
        old(st).parity@[start as int] is None,
        settled_below(*old(st), start as int),
    ensures
        sized(*final(st), triangles@.len() as int),
        partial_forest(triangles@, *final(st)),
        all_closed(adjacency@, *final(st), triangles@.len() as int),
        extends(*old(st), *final(st), triangles@.len() as int, start as int),
        queue_tracks(queue@, *final(st), start as int, triangles@.len() as int),
        discovery_order(queue@, *final(st), adjacency@),
        final(st).parity@[start as int] is Some,
        final(st).root@[start as int] == start,
{
    let face_count = triangles.len();
    let ghost n = face_count as int;
    let ghost initial = *st;
    st.parity.set(start, Some(false));
    proof {
        st.root@ = st.root@.update(start as int, start as int);
        st.depth@ = st.depth@.update(start as int, 0nat);
        lemma_start_root(triangles@, adjacency@, initial, *st, start as int);
    }
    let mut queue: Vec<usize> = Vec::new();
    queue.push(start);
    proof {
        lemma_start_queue(initial, *st, queue@, start as int, n);
        reveal(queue_layered);
        reveal(discovery_order);
    }
    let ghost seeded = *st;
    proof {
        lemma_extends_refl(seeded, n, start as int);
    }
    let mut head: usize = 0;
    while head < queue.len()
        invariant
            n == triangles@.len(),
            start < n,
            adjacency_sound(triangles@, adjacency@),
            adjacency_symmetric(adjacency@),
            sized(*st, n),
            partial_forest(triangles@, *st),
            queue_tracks(queue@, *st, start as int, n),
            others_closed(adjacency@, *st, start as int, n),
            extends(initial, *st, n, start as int),
            extends(seeded, *st, n, start as int),
            initial.parity@.len() == n,
            seeded.parity@.len() == n,
            seeded.parity@[start as int] is Some,
            seeded.root@[start as int] == start,
            settled_below(*st, start as int),
            head < queue@.len() ==> queue_layered(queue@, *st, st.depth@[queue@[head as int] as int] as int),
            discovery_order(queue@, *st, adjacency@),
            head <= queue@.len(),
            forall|j: int| 0 <= j < head ==> closed_at(adjacency@, *st, #[trigger] queue@[j] as int),
        decreases n - head,
    {
        proof {
            lemma_queue_facts(queue@, *st, start as int, n);
        }
        let face = queue[head];
        let ghost before = *st;
        let ghost before_queue = queue@;
        visit(st, &mut queue, triangles, adjacency, face, start, Ghost(head as int));
        proof {
            lemma_extends_trans(initial, before, *st, n, start as int);
            lemma_extends_trans(seeded, before, *st, n, start as int);
            lemma_extends_keeps(before, *st, n, start as int);
            assert forall|f: int| 0 <= f < start implies #[trigger] st.parity@[f] is Some by {
                assert(before.parity@[f] is Some);
            }
            lemma_queue_facts(queue@, *st, start as int, n);
            assert(st.depth@[face as int] == before.depth@[face as int]);
            if head + 1 < queue@.len() {
                lemma_layered_advance(queue@, *st, head as int, before.depth@[face as int] as int);
            }
            assert forall|j: int| 0 <= j < head + 1 implies closed_at(adjacency@, *st, #[trigger] queue@[j] as int) by {
                if j < head {
                    assert(queue@[j] == before_queue[j]);
                    lemma_queue_facts(before_queue, before, start as int, n);
                    lemma_closed_preserved(triangles@, adjacency@, before, *st, start as int, queue@[j] as int);
                }
            }
        }
        head = head + 1;
    }
    proof {
        lemma_queue_facts(queue@, *st, start as int, n);
        lemma_extends_keeps(seeded, *st, n, start as int);
        reveal(queue_tracks);
        reveal(others_closed);
        assert forall|f: int| 0 <= f < n && #[trigger] st.parity@[f] is Some implies closed_at(adjacency@, *st, f) by {
            if st.root@[f] == start as int {
                assert(queue@.contains(f as usize));
                let j = choose|j: int| 0 <= j < queue@.len() && queue@[j] == f as usize;
                assert(closed_at(adjacency@, *st, queue@[j] as int));
            }
        }
        reveal(all_closed);
    }
    queue
}

proof fn lemma_start_root(
    triangles: Seq<[u32; 3]>,
    adjacency: Seq<Vec<(usize, bool)>>,
    before: Propagation,
    after: Propagation,
    start: int,
)
    requires
        adjacency_sound(triangles, adjacency),
        sized(before, triangles.len() as int),
        partial_forest(triangles, before),
        all_closed(adjacency, before, triangles.len() as int),
        0 <= start < triangles.len(),
        before.parity@[start] is None,
        after.parity@ == before.parity@.update(start, Some(false)),
        after.root@ == before.root@.update(start, start),
        after.parent@ == before.parent@,
        after.depth@ == before.depth@.update(start, 0),
    ensures
        sized(after, triangles.len() as int),
        partial_forest(triangles, after),
        extends(before, after, triangles.len() as int, start),
        others_closed(adjacency, after, start, triangles.len() as int),
        forall|f: int| 0 <= f < triangles.len() && #[trigger] after.parity@[f] is Some && f != start ==> after.root@[f] != start,
{
    reveal(partial_forest);
    reveal(extends);
    reveal(others_closed);
    reveal(all_closed);
    let n = triangles.len() as int;
    assert forall|f: int| 0 <= f < n && #[trigger] after.parity@[f] is Some && f != start implies after.root@[f] != start by {
        assert(before.parity@[f] is Some);
        assert(before.parity@[before.root@[f]] is Some);
    }
    assert forall|f: int| 0 <= f < n && #[trigger] after.parity@[f] is Some implies {
        &&& 0 <= after.root@[f] <= f
        &&& after.parity@[after.root@[f]] is Some
        &&& after.root@[after.root@[f]] == after.root@[f]
    } by {
        if f != start {
            assert(before.parity@[f] is Some);
            assert(before.parity@[before.root@[f]] is Some);
        }
    }
    assert forall|f: int| 0 <= f < n && #[trigger] after.parity@[f] is Some && after.root@[f] != f implies {
        let p = after.parent@[f];
        &&& 0 <= p < n
        &&& after.parity@[p] is Some
        &&& after.depth@[p] + 1 == after.depth@[f]
        &&& after.root@[p] == after.root@[f]
        &&& exists|k: u64|
            links_faces(triangles, k, f, p) && after.parity@[f]->0 == (after.parity@[p]->0
                != same_direction(triangles, k))
    } by {
        assert(f != start);
        assert(before.parity@[f] is Some);
        let p = before.parent@[f];
        assert(before.parity@[p] is Some);
        assert(p != start);
        let k = choose|k: u64| links_faces(triangles, k, f, p) && before.parity@[f]->0 == (before.parity@[p]->0
            != same_direction(triangles, k));
        assert(links_faces(triangles, k, f, p) && after.parity@[f]->0 == (after.parity@[p]->0
            != same_direction(triangles, k)));
    }
    assert forall|f: int| 0 <= f < n && #[trigger] after.parity@[f] is Some && after.root@[f] != start implies closed_at(adjacency, after, f) by {
        assert(f != start);
        assert(before.parity@[f] is Some);
        assert(closed_at(adjacency, before, f));
        assert forall|i: int| 0 <= i < adjacency[f]@.len() implies {
            let g = (#[trigger] adjacency[f]@[i]).0 as int;
            after.parity@[g] is Some && after.root@[g] == after.root@[f]
        } by {
            let g = adjacency[f]@[i].0 as int;
            assert(before.parity@[g] is Some);
            assert(g != start);
        }
    }
}

proof fn lemma_start_queue(before: Propagation, after: Propagation, queue: Seq<usize>, start: int, n: int)
    requires
        queue == seq![start as usize],
        0 <= start < n,
        n <= usize::MAX,
        after.parity@.len() == n,
        after.parity@[start] is Some,
        after.root@[start] == start,
        forall|f: int| 0 <= f < n && #[trigger] after.parity@[f] is Some && f != start ==> after.root@[f] != start,
    ensures
        queue_tracks(queue, after, start, n),
{
    reveal(queue_tracks);
    assert forall|f: int| 0 <= f < n implies (queue.contains(f as usize) <==> (#[trigger] after.parity@[f] is Some && after.root@[f] == start)) by {
        if f == start {
            assert(queue[0] == f as usize);
        }
    }
}

/// The component lists found so far.
#[verifier::opaque]
spec fn components_so_far(components: Seq<Vec<usize>>, st: Propagation, start: int, n: int) -> bool {
    &&& forall|c: int|
        0 <= c < components.len() ==> {
            let list = #[trigger] components[c]@;
            &&& list.len() > 0
            &&& list.no_duplicates()
            &&& list[0] < start
            &&& st.root@[list[0] as int] == list[0] as int
        }
    &&& forall|c: int, i: int|
        0 <= c < components.len() && 0 <= i < components[c]@.len() ==> {
            let face = #[trigger] components[c]@[i];
            &&& face < n
            &&& st.parity@[face as int] is Some
            &&& st.root@[face as int] == components[c]@[0] as int
        }
    &&& forall|c: int, d: int|
        0 <= c < d < components.len() ==> (#[trigger] components[c])@[0] < (
        #[trigger] components[d])@[0]
    &&& forall|f: int| 0 <= f < n && #[trigger] st.parity@[f] is Some ==> listed_in(components, f)
}

proof fn lemma_components_empty(st: Propagation, n: int)
    requires
        forall|f: int| 0 <= f < n ==> #[trigger] st.parity@[f] is None,
    ensures
        components_so_far(Seq::empty(), st, 0, n),
{
    reveal(components_so_far);
}

proof fn lemma_components_bump(components: Seq<Vec<usize>>, st: Propagation, start: int, n: int)
    requires
        components_so_far(components, st, start, n),
    ensures
        components_so_far(components, st, start + 1, n),
{
    reveal(components_so_far);
}

proof fn lemma_component_added(
    components: Seq<Vec<usize>>,
    all: Seq<Vec<usize>>,
    queue: Seq<usize>,
    before: Propagation,
    after: Propagation,
    start: int,
    n: int,
)
    requires
        0 <= start < n,
        n <= usize::MAX,
        before.parity@.len() == n,
        components_so_far(components, before, start, n),
        extends(before, after, n, start),
        queue_tracks(queue, after, start, n),
        after.root@[start] == start,
        all.len() == components.len() + 1,
        forall|c: int| 0 <= c < components.len() ==> #[trigger] all[c] == components[c],
        all[components.len() as int]@ == queue,
    ensures
        components_so_far(all, after, start + 1, n),
{
    reveal(components_so_far);
    lemma_extends_keeps(before, after, n, start);
    lemma_queue_facts(queue, after, start, n);
    let last = components.len() as int;
    assert forall|c: int| 0 <= c < all.len() implies {
        let list = #[trigger] all[c]@;
        &&& list.len() > 0
        &&& list.no_duplicates()
        &&& list[0] < start + 1
        &&& after.root@[list[0] as int] == list[0] as int
    } by {
        if c < last {
            assert(all[c] == components[c]);
            let list = components[c]@;
            assert(list.len() > 0);
            assert(list[0] == components[c]@[0]);
            assert(before.parity@[list[0] as int] is Some);
        } else {
            reveal(queue_tracks);
        }
    }
    assert forall|c: int, i: int| 0 <= c < all.len() && 0 <= i < all[c]@.len() implies {
        let face = #[trigger] all[c]@[i];
        &&& face < n
        &&& after.parity@[face as int] is Some
        &&& after.root@[face as int] == all[c]@[0] as int
    } by {
        if c < last {
            assert(all[c] == components[c]);
            let face = components[c]@[i];
            assert(face < n);
            assert(before.parity@[face as int] is Some);
            assert(before.parity@[components[c]@[0] as int] is Some);
        } else {
            assert(queue[i] < n);
        }
    }
    assert forall|c: int, d: int| 0 <= c < d < all.len() implies (#[trigger] all[c])@[0] < (#[trigger] all[d])@[0] by {
        assert(all[c] == components[c]);
        if d < last {
            assert(all[d] == components[d]);
        } else {
            assert(components[c]@.len() > 0);
        }
    }
    assert forall|f: int| 0 <= f < n && #[trigger] after.parity@[f] is Some implies listed_in(all, f) by {
        if before.parity@[f] is Some {
            assert(listed_in(components, f));
            let c = choose|c: int| 0 <= c < components.len() && #[trigger] components[c]@.contains(f as usize);
            assert(all[c] == components[c]);
            assert(all[c]@.contains(f as usize));
        } else {
            reveal(queue_tracks);
            assert(after.root@[f] == start);
            assert(queue.contains(f as usize));
            assert(all[last]@.contains(f as usize));
        }
    }
}

proof fn lemma_components_final(components: Seq<Vec<usize>>, st: Propagation, n: int)
    requires
        components_so_far(components, st, n, n),
        forall|f: int| 0 <= f < n ==> #[trigger] st.parity@[f] is Some,
    ensures
        components_match(components, st.root@, n),
{
    reveal(components_so_far);
    assert forall|c: int| 0 <= c < components.len() implies {
        let list = #[trigger] components[c]@;
        &&& list.len() > 0
        &&& list.no_duplicates()
        &&& st.root@[list[0] as int] == list[0] as int
        &&& forall|i: int|
            0 <= i < list.len() ==> list[i] < n && st.root@[list[i] as int] == list[0] as int
    } by {
        let list = components[c]@;
        assert forall|i: int| 0 <= i < list.len() implies list[i] < n && st.root@[list[i] as int] == list[0] as int by {
            assert(components[c]@[i] == list[i]);
        }
    }
    assert forall|f: int| 0 <= f < n implies #[trigger] listed_in(components, f) by {
        assert(st.parity@[f] is Some);
    }
}

proof fn lemma_forest_roots(triangles: Seq<[u32; 3]>, st: Propagation, flipped: Seq<bool>)
    requires
        sized(st, triangles.len() as int),
        partial_forest(triangles, st),
        flipped.len() == triangles.len(),
        forall|f: int| 0 <= f < triangles.len() ==> Some(#[trigger] flipped[f]) == st.parity@[f],
    ensures
        forall|f: int| 0 <= f < triangles.len() ==> 0 <= #[trigger] st.root@[f] <= f && st.root@[st.root@[f]] == st.root@[f],
        forall|f: int| 0 <= f < triangles.len() && #[trigger] st.root@[f] == f ==> !flipped[f],
        forall|f: int| 0 <= f < triangles.len() && #[trigger] st.root@[f] == f ==> st.depth@[f] == 0,
        forall|f: int| 0 <= f < triangles.len() && #[trigger] st.root@[f] != f ==> {
            let p = st.parent@[f];
            &&& 0 <= p < triangles.len()
            &&& st.depth@[p] + 1 == st.depth@[f]
            &&& st.root@[p] == st.root@[f]
            &&& exists|key: u64|
                links_faces(triangles, key, f, p) && flipped[f] == (flipped[p] != same_direction(
                    triangles,
                    key,
                ))
        },
{
    reveal(partial_forest);
    let n = triangles.len() as int;
    assert forall|f: int| 0 <= f < n implies 0 <= #[trigger] st.root@[f] <= f && st.root@[st.root@[f]] == st.root@[f] by {
        assert(Some(flipped[f]) == st.parity@[f]);
    }
    assert forall|f: int| 0 <= f < n && #[trigger] st.root@[f] == f implies !flipped[f] by {
        assert(Some(flipped[f]) == st.parity@[f]);
    }
    assert forall|f: int| 0 <= f < n && #[trigger] st.root@[f] == f implies st.depth@[f] == 0 by {
        assert(Some(flipped[f]) == st.parity@[f]);
    }
    assert forall|f: int| 0 <= f < n && #[trigger] st.root@[f] != f implies {
        let p = st.parent@[f];
        &&& 0 <= p < n
        &&& st.depth@[p] + 1 == st.depth@[f]
        &&& st.root@[p] == st.root@[f]
        &&& exists|key: u64|
            links_faces(triangles, key, f, p) && flipped[f] == (flipped[p] != same_direction(
                triangles,
                key,
            ))
    } by {
        assert(Some(flipped[f]) == st.parity@[f]);
        let p = st.parent@[f];
        assert(st.parity@[p] is Some);
        assert(Some(flipped[p]) == st.parity@[p]);
        let k = choose|k: u64| links_faces(triangles, k, f, p) && st.parity@[f]->0 == (st.parity@[p]->0
            != same_direction(triangles, k));
        assert(links_faces(triangles, k, f, p) && flipped[f] == (flipped[p] != same_direction(triangles, k)));
    }
}

proof fn lemma_forest_closed(
    triangles: Seq<[u32; 3]>,
    adjacency: Seq<Vec<(usize, bool)>>,
    st: Propagation,
)
    requires
        forall|key: u64| adjacency_covers(triangles, adjacency, key),
        sized(st, triangles.len() as int),
        all_closed(adjacency, st, triangles.len() as int),
        forall|f: int| 0 <= f < triangles.len() ==> #[trigger] st.parity@[f] is Some,
    ensures
        forall|key: u64|
            #[trigger] is_manifold_edge(triangles, key) ==> {
                let a = edge_uses(triangles, key)[0].0 as int;
                let b = edge_uses(triangles, key)[1].0 as int;
                &&& st.root@[a] == st.root@[b]
                &&& st.depth@[a] <= st.depth@[b] + 1
                &&& st.depth@[b] <= st.depth@[a] + 1
            },
{
    reveal(all_closed);
    assert forall|key: u64| #[trigger] is_manifold_edge(triangles, key) implies {
        let a = edge_uses(triangles, key)[0].0 as int;
        let b = edge_uses(triangles, key)[1].0 as int;
        &&& st.root@[a] == st.root@[b]
        &&& st.depth@[a] <= st.depth@[b] + 1
        &&& st.depth@[b] <= st.depth@[a] + 1
    } by {
        let uses = edge_uses(triangles, key);
        lemma_use_faces_bounded(triangles, triangles.len(), key);
        assert(adjacency_covers(triangles, adjacency, key));
        let a = uses[0].0 as int;
        let b = uses[1].0 as int;
        assert(st.parity@[a] is Some);
        assert(closed_at(adjacency, st, a));
        let i = choose|i: int| 0 <= i < adjacency[a]@.len() && adjacency[a]@[i] == (uses[1].0, same_direction(triangles, key));
        assert(adjacency[a]@[i].0 as int == b);
        assert(st.parity@[b] is Some);
        assert(closed_at(adjacency, st, b));
        let k = choose|k: int| 0 <= k < adjacency[b]@.len() && adjacency[b]@[k] == (uses[0].0, same_direction(triangles, key));
        assert(adjacency[b]@[k].0 as int == a);
    }
}

proof fn lemma_initial_state(triangles: Seq<[u32; 3]>, adjacency: Seq<Vec<(usize, bool)>>, st: Propagation)
    requires
        sized(st, triangles.len() as int),
        forall|f: int| 0 <= f < triangles.len() ==> #[trigger] st.parity@[f] is None,
    ensures
        partial_forest(triangles, st),
        all_closed(adjacency, st, triangles.len() as int),
        components_so_far(Seq::empty(), st, 0, triangles.len() as int),
{
    reveal(partial_forest);
    reveal(all_closed);
    lemma_components_empty(st, triangles.len() as int);
}

proof fn lemma_components_discovery_kept(
    components: Seq<Vec<usize>>,
    before: Propagation,
    after: Propagation,
    adjacency: Seq<Vec<(usize, bool)>>,
    start: int,
    n: int,
)
    requires
        components_so_far(components, before, start, n),
        extends(before, after, n, start),
        forall|c: int| 0 <= c < components.len() ==> discovery_order(#[trigger] components[c]@, before, adjacency),
    ensures
        forall|c: int| 0 <= c < components.len() ==> discovery_order(#[trigger] components[c]@, after, adjacency),
{
    reveal(components_so_far);
    lemma_extends_keeps(before, after, n, start);
    assert forall|c: int| 0 <= c < components.len() implies discovery_order(#[trigger] components[c]@, after, adjacency) by {
        let list = components[c]@;
        assert forall|j: int| 0 <= j < list.len() implies after.parent@[#[trigger] list[j] as int] == before.parent@[list[j] as int] by {
            assert(components[c]@[j] == list[j]);
            assert(before.parity@[list[j] as int] is Some);
        }
        lemma_discovery_kept(list, before, after, adjacency);
    }
}

proof fn lemma_visited_in_order(
    triangles: Seq<[u32; 3]>,
    adjacency: Seq<Vec<(usize, bool)>>,
    components: Seq<Vec<usize>>,
    st: Propagation,
)
    requires
        forall|key: u64| adjacency_covers(triangles, adjacency, key),
        forall|c: int| 0 <= c < components.len() ==> discovery_order(#[trigger] components[c]@, st, adjacency),
    ensures
        visited_in_order(triangles, components, st.parent@),
{
    reveal(discovery_order);
    assert forall|c: int, i: int| 0 <= c < components.len() && 0 < i < components[c]@.len() implies #[trigger] has_finder(
        triangles,
        components[c]@,
        st.parent@,
        i,
    ) by {
        let list = components[c]@;
        assert(discovery_order(components[c]@, st, adjacency));
        assert(has_discoverer(list, st, adjacency, i));
        let j = choose|j: int| #[trigger] discovered_by(list, st, adjacency, i, j);
        assert forall|k: int| 0 <= k < list.len() && #[trigger] faces_adjacent(triangles, list[k] as int, list[i] as int) implies j <= k by {
            let key = choose|key: u64| #[trigger] links_faces(triangles, key, list[k] as int, list[i] as int);
            assert(adjacency_covers(triangles, adjacency, key));
            let uses = edge_uses(triangles, key);
            let sd = same_direction(triangles, key);
            if uses[0].0 as int == list[k] as int {
                assert(adjacency[list[k] as int]@.contains((uses[1].0, sd)));
                let e = choose|e: int| 0 <= e < adjacency[list[k] as int]@.len() && adjacency[list[k] as int]@[e] == (uses[1].0, sd);
                assert(adjacency[list[k] as int]@[e].0 == list[i]);
            } else {
                assert(adjacency[list[k] as int]@.contains((uses[0].0, sd)));
                let e = choose|e: int| 0 <= e < adjacency[list[k] as int]@.len() && adjacency[list[k] as int]@[e] == (uses[0].0, sd);
                assert(adjacency[list[k] as int]@[e].0 == list[i]);
            }
        }
        assert(found_by(triangles, list, st.parent@, i, j));
    }
}

proof fn lemma_final_state(
    triangles: Seq<[u32; 3]>,
    adjacency: Seq<Vec<(usize, bool)>>,
    st: Propagation,
    flipped: Seq<bool>,
    components: Seq<Vec<usize>>,
)
    requires
        forall|key: u64| adjacency_covers(triangles, adjacency, key),
        sized(st, triangles.len() as int),
        partial_forest(triangles, st),
        all_closed(adjacency, st, triangles.len() as int),
        components_so_far(components, st, triangles.len() as int, triangles.len() as int),
        forall|f: int| 0 <= f < triangles.len() ==> #[trigger] st.parity@[f] is Some,
        flipped.len() == triangles.len(),
        forall|f: int| 0 <= f < triangles.len() ==> Some(#[trigger] flipped[f]) == st.parity@[f],
        forall|c: int| 0 <= c < components.len() ==> discovery_order(#[trigger] components[c]@, st, adjacency),
    ensures
        exists|root: Seq<int>, parent: Seq<int>, depth: Seq<nat>|
            propagation_forest(triangles, flipped, root, parent, depth) && components_match(
                components,
                root,
                triangles.len() as int,
            ) && visited_in_order(triangles, components, parent),
{
    lemma_visited_in_order(triangles, adjacency, components, st);
    lemma_forest_roots(triangles, st, flipped);
    lemma_forest_closed(triangles, adjacency, st);
    lemma_components_final(components, st, triangles.len() as int);
    assert(propagation_forest(triangles, flipped, st.root@, st.parent@, st.depth@));
}

/// Propagates reversal choices breadth-first from the lowest unvisited face
/// of every component, and lists the components in visiting order.
fn propagate_reversals(triangles: &Vec<[u32; 3]>, adjacency: &Vec<Vec<(usize, bool)>>) -> (result: (
    Vec<bool>,
    Vec<Vec<usize>>,
))
    requires
        adjacency_sound(triangles@, adjacency@),
        forall|key: u64| adjacency_covers(triangles@, adjacency@, key),
    ensures
        result.0@.len() == triangles@.len(),
        exists|root: Seq<int>, parent: Seq<int>, depth: Seq<nat>|
            propagation_forest(triangles@, result.0@, root, parent, depth) && components_match(
                result.1@,
                root,
                triangles@.len() as int,
            ) && visited_in_order(triangles@, result.1@, parent),
{
    proof {
        lemma_adjacency_symmetric(triangles@, adjacency@);
    }
    let n = triangles.len();
    let mut parity: Vec<Option<bool>> = Vec::new();
    let mut index: usize = 0;
    while index < n
        invariant
            index <= n,
            parity@.len() == index,
            forall|f: int| 0 <= f < index ==> #[trigger] parity@[f] is None,
        decreases n - index,
    {
        parity.push(None);
        index = index + 1;
    }
    let mut st = Propagation {
        parity,
        root: Ghost(Seq::new(n as nat, |f: int| f)),
        parent: Ghost(Seq::new(n as nat, |f: int| f)),
        depth: Ghost(Seq::new(n as nat, |f: int| 0nat)),
    };
    proof {
        lemma_initial_state(triangles@, adjacency@, st);
    }
    let mut components: Vec<Vec<usize>> = Vec::new();
    let mut start: usize = 0;
    while start < n
        invariant
            start <= n,
            n == triangles@.len(),
            adjacency_sound(triangles@, adjacency@),
            adjacency_symmetric(adjacency@),
            sized(st, n as int),
            partial_forest(triangles@, st),
            all_closed(adjacency@, st, n as int),
            forall|f: int| 0 <= f < start ==> #[trigger] st.parity@[f] is Some,
            components_so_far(components@, st, start as int, n as int),
            forall|c: int| 0 <= c < components@.len() ==> discovery_order(#[trigger] components@[c]@, st, adjacency@),
        decreases n - start,
    {
        if st.parity[start].is_none() {
            let ghost before = st;
            let ghost before_components = components@;
            let queue = explore(&mut st, triangles, adjacency, start);
            let ghost queue_view = queue@;
            proof {
                lemma_components_discovery_kept(before_components, before, st, adjacency@, start as int, n as int);
            }
            components.push(queue);
            proof {
                assert forall|c: int| 0 <= c < components@.len() implies discovery_order(#[trigger] components@[c]@, st, adjacency@) by {
                    if c < before_components.len() {
                        assert(components@[c] == before_components[c]);
                    }
                }
                lemma_component_added(before_components, components@, queue_view, before, st, start as int, n as int);
                lemma_extends_keeps(before, st, n as int, start as int);
                assert forall|f: int| 0 <= f < start + 1 implies #[trigger] st.parity@[f] is Some by {
                    if f < start {
                        assert(before.parity@[f] is Some);
                    }
                }
            }
        } else {
            proof {
                lemma_components_bump(components@, st, start as int, n as int);
            }
        }
        start = start + 1;
    }
    let mut flipped: Vec<bool> = Vec::new();
    let mut face: usize = 0;
    while face < n
        invariant
            face <= n,
            n == triangles@.len(),
            st.parity@.len() == n,
            forall|f: int| 0 <= f < n ==> #[trigger] st.parity@[f] is Some,
            flipped@.len() == face,
            forall|f: int| 0 <= f < face ==> Some(#[trigger] flipped@[f]) == st.parity@[f],
        decreases n - face,
    {
        let value = match st.parity[face] {
            Some(value) => value,
            None => false,
        };
        flipped.push(value);
        face = face + 1;
    }
    proof {
        lemma_final_state(triangles@, adjacency@, st, flipped@, components@);
    }
    (flipped, components)
}

/// Number of uses whose face is marked.
pub open spec fn marked_uses(uses: Seq<(usize, bool)>, marked: Seq<bool>) -> nat
    decreases uses.len(),
{
    if uses.len() == 0 {
        0
    } else {
        marked_uses(uses.drop_last(), marked) + if marked[uses.last().0 as int] {
            1nat
        } else {
            0nat
        }
    }
}

/// Marks the faces listed in `component`.
pub open spec fn membership(component: Seq<usize>, n: nat) -> Seq<bool> {
    Seq::new(n, |f: int| component.contains(f as usize))
}

/// A component is closed when every edge is used by none of its faces or
/// by exactly two of them.
pub open spec fn is_closed_component(triangles: Seq<[u32; 3]>, component: Seq<usize>) -> bool {
    forall|key: u64|
        #![trigger edge_uses(triangles, key)]
        marked_uses(edge_uses(triangles, key), membership(component, triangles.len())) == 0
            || marked_uses(edge_uses(triangles, key), membership(component, triangles.len())) == 2
}

/// Returns true when every edge is used by none or exactly two of the
/// component's faces.
fn component_is_closed(
    component: &Vec<usize>,
    triangles: &Vec<[u32; 3]>,
    edges: &BTreeMap<u64, Vec<(usize, bool)>>,
) -> (closed: bool)
    requires
        forall|i: int| 0 <= i < component@.len() ==> #[trigger] component@[i] < triangles@.len(),
        table_matches(edges@, face_half_edges(triangles@, triangles@.len())),
    ensures
        closed == is_closed_component(triangles@, component@),
{
    let n = triangles.len();
    let ghost marks = membership(component@, n as nat);
    let mut member: Vec<bool> = Vec::new();
    let mut f: usize = 0;
    while f < n
        invariant
            f <= n,
            member@.len() == f,
            forall|g: int| 0 <= g < f ==> !#[trigger] member@[g],
        decreases n - f,
    {
        member.push(false);
        f = f + 1;
    }
    let mut i: usize = 0;
    while i < component.len()
        invariant
            n == triangles@.len(),
            member@.len() == n,
            i <= component@.len(),
            forall|j: int| 0 <= j < component@.len() ==> #[trigger] component@[j] < n,
            forall|g: int| 0 <= g < n ==> (#[trigger] member@[g] <==> exists|j: int| 0 <= j < i && component@[j] == g as usize),
        decreases component@.len() - i,
    {
        member.set(component[i], true);
        i = i + 1;
        proof {
            assert forall|g: int| 0 <= g < n implies (#[trigger] member@[g] <==> exists|j: int| 0 <= j < i && component@[j] == g as usize) by {
                if g == component@[i - 1] as int {
                    assert(component@[i - 1] == g as usize);
                }
            }
        }
    }
    proof {
        assert(member@ =~= marks) by {
            assert forall|g: int| 0 <= g < n implies member@[g] == marks[g] by {
                if member@[g] {
                    let j = choose|j: int| 0 <= j < i && component@[j] == g as usize;
                    assert(component@.contains(g as usize));
                }
                if component@.contains(g as usize) {
                    let j = choose|j: int| 0 <= j < component@.len() && component@[j] == g as usize;
                    assert(exists|j: int| 0 <= j < i && component@[j] == g as usize);
                }
            }
        }
        axiom_spec_keys_iter(edges);
    }
    let ghost keys = spec_keys_iter(edges).remaining();
    let ghost mut done: int = 0;
    let mut closed = true;
    for key in it: edges.keys()
        invariant
            done == it.index(),
            it.seq() == keys,
            n == triangles@.len(),
            member@ == marks,
            marks == membership(component@, n as nat),
            keys.unref().to_set() == edges@.dom(),
            table_matches(edges@, face_half_edges(triangles@, triangles@.len())),
            closed == forall|j: int| 0 <= j < it.index() ==> {
                let uses = edge_uses(triangles@, *#[trigger] it.seq()[j]);
                marked_uses(uses, marks) == 0 || marked_uses(uses, marks) == 2
            },
    {
        assert(edges@.contains_key(*key)) by {
            assert(it.seq().unref().to_set().contains(*key));
        }
        let uses = edges.get(key);
        match uses {
            Some(uses) => {
                proof {
                    lemma_use_faces_bounded(triangles@, triangles@.len(), *key);
                }
                let mut incident: usize = 0;
                let mut u: usize = 0;
                while u < uses.len()
                    invariant
                        u <= uses@.len(),
                        uses@ == edge_uses(triangles@, *key),
                        member@ == marks,
                        marks.len() == n,
                        forall|m: int| 0 <= m < uses@.len() ==> (#[trigger] uses@[m]).0 < n,
                        incident == marked_uses(uses@.take(u as int), marks),
                        incident <= u,
                    decreases uses@.len() - u,
                {
                    proof {
                        assert(uses@.take(u as int + 1).drop_last() =~= uses@.take(u as int));
                    }
                    if member[uses[u].0] {
                        incident = incident + 1;
                    }
                    u = u + 1;
                }
                proof {
                    assert(uses@.take(u as int) =~= uses@);
                }
                if !(incident == 0 || incident == 2) {
                    closed = false;
                }
            },
            None => {},
        }
        proof {
            done = done + 1;
        }
    }
    proof {
        assert(done == keys.len());
        if closed {
            assert forall|key: u64| #![trigger edge_uses(triangles@, key)]
                marked_uses(edge_uses(triangles@, key), marks) == 0
                    || marked_uses(edge_uses(triangles@, key), marks) == 2 by {
                if edges@.contains_key(key) {
                    assert(keys.unref().to_set().contains(key));
                    let j = choose|j: int| 0 <= j < keys.unref().len() && keys.unref()[j] == key;
                    assert(*keys[j] == key);
                } else {
                    assert(edge_uses(triangles@, key).len() == 0);
                }
            }
        }
    }
    closed
}

/// Manifold edges whose two faces still disagree in winding once every
/// face marked in `flipped` is reversed.
pub open spec fn contradicted_edges(triangles: Seq<[u32; 3]>, flipped: Seq<bool>) -> Set<u64> {
    Set::new(
        |key: u64|
            is_manifold_edge(triangles, key) && (flipped[edge_uses(triangles, key)[0].0 as int]
                != flipped[edge_uses(triangles, key)[1].0 as int]) != same_direction(
                triangles,
                key,
            ),
    )
}

/// Number of marked entries.
pub open spec fn count_marked(marks: Seq<bool>) -> nat
    decreases marks.len(),
{
    if marks.len() == 0 {
        0
    } else {
        count_marked(marks.drop_last()) + if marks.last() {
            1nat
        } else {
            0nat
        }
    }
}

/// A triangle with its winding reversed: the second and third corners
/// swap places.
pub open spec fn reversed(triangle: [u32; 3]) -> [u32; 3] {
    [triangle[0], triangle[2], triangle[1]]
}

/// Outcome of making manifold adjacency consistently wound.
pub struct WindingConsistency {
    /// Which faces were reversed.
    pub flipped: Vec<bool>,
    /// Faces reversed to make manifold adjacency consistent.
    pub consistency_flips: usize,
    /// Non-manifold or contradictory adjacency relations not used for propagation.
    pub unresolved_edges: usize,
    /// Faces of every connected component, starting from its lowest face.
    pub components: Vec<Vec<usize>>,
    /// Whether each component is closed.
    pub closed: Vec<bool>,
}

fn count_contradictions(
    triangles: &Vec<[u32; 3]>,
    edges: &BTreeMap<u64, Vec<(usize, bool)>>,
    flipped: &Vec<bool>,
) -> (count: usize)
    requires
        table_matches(edges@, face_half_edges(triangles@, triangles@.len())),
        flipped@.len() == triangles@.len(),
        3 * triangles@.len() <= usize::MAX,
    ensures
        count == contradicted_edges(triangles@, flipped@).len(),
{
    let ghost all = face_half_edges(triangles@, triangles@.len());
    proof {
        axiom_spec_keys_iter(edges);
        lemma_table_size(edges@, all);
        lemma_face_half_edges_len(triangles@, triangles@.len());
    }
    let ghost keys = spec_keys_iter(edges).remaining();
    let ghost mut done: int = 0;
    let ghost mut counted: Set<u64> = Set::empty();
    let mut count: usize = 0;
    for key in it: edges.keys()
        invariant
            done == it.index(),
            it.seq() == keys,
            keys.unref().to_set() == edges@.dom(),
            keys.len() <= 3 * triangles@.len(),
            3 * triangles@.len() <= usize::MAX,
            flipped@.len() == triangles@.len(),
            table_matches(edges@, all),
            all == face_half_edges(triangles@, triangles@.len()),
            it.seq().no_duplicates(),
            counted.finite(),
            count == counted.len(),
            count <= it.index(),
            forall|k: u64| #[trigger] counted.contains(k) <==> (exists|j: int| 0 <= j < it.index() && *it.seq()[j] == k) && contradicted_edges(triangles@, flipped@).contains(k),
    {
        assert(edges@.contains_key(*key)) by {
            assert(it.seq().unref().to_set().contains(*key));
        }
        let uses = edges.get(key);
        match uses {
            Some(uses) => {
                proof {
                    lemma_use_faces_bounded(triangles@, triangles@.len(), *key);
                }
                if uses.len() == 2 {
                    let a = uses[0];
                    let b = uses[1];
                    if (flipped[a.0] != flipped[b.0]) != (a.1 == b.1) {
                        count = count + 1;
                        proof {
                            counted = counted.insert(*key);
                        }
                    }
                }
            },
            None => {},
        }
        proof {
            done = done + 1;
        }
    }
    proof {
        assert(done == keys.len());
        assert forall|k: u64| #[trigger] counted.contains(k) <==> contradicted_edges(triangles@, flipped@).contains(k) by {
            if contradicted_edges(triangles@, flipped@).contains(k) {
                assert(edges@.contains_key(k));
                assert(keys.unref().to_set().contains(k));
                let j = choose|j: int| 0 <= j < keys.unref().len() && keys.unref()[j] == k;
                assert(*keys[j] == k);
            }
        }
        assert(counted =~= contradicted_edges(triangles@, flipped@));
    }
    count
}

/// Makes adjacent manifold faces use opposite directions along shared
/// edges: reversal choices spread breadth-first from the lowest face of
/// every connected component, which keeps its winding, across manifold
/// edges; each component list is the visiting order, and each other face
/// follows the earliest visited face adjacent to it, one level nearer the
/// root. Edges
/// used once or more than twice are not used for propagation, and an edge
/// whose two faces still disagree after propagation counts once from each of
/// its faces.
pub fn repair_winding_consistency(mesh: &mut Mesh) -> (report: WindingConsistency)
    requires
        old(mesh).triangles@.len() * 12 <= isize::MAX,
    ensures
        final(mesh).positions@ == old(mesh).positions@,
        final(mesh).triangles@.len() == old(mesh).triangles@.len(),
        report.flipped@.len() == old(mesh).triangles@.len(),
        forall|face: int|
            0 <= face < old(mesh).triangles@.len() ==> #[trigger] final(mesh).triangles@[face]
                == if report.flipped@[face] {
                reversed(old(mesh).triangles@[face])
            } else {
                old(mesh).triangles@[face]
            },
        report.consistency_flips == count_marked(report.flipped@),
        report.unresolved_edges == irregular_edges(old(mesh).triangles@).len() + 2
            * contradicted_edges(old(mesh).triangles@, report.flipped@).len(),
        exists|root: Seq<int>, parent: Seq<int>, depth: Seq<nat>|
            propagation_forest(old(mesh).triangles@, report.flipped@, root, parent, depth)
                && components_match(
                report.components@,
                root,
                old(mesh).triangles@.len() as int,
            ) && visited_in_order(old(mesh).triangles@, report.components@, parent),
        report.closed@.len() == report.components@.len(),
        forall|c: int|
            0 <= c < report.components@.len() ==> #[trigger] report.closed@[c]
                == is_closed_component(old(mesh).triangles@, report.components@[c]@),
{
    let ghost source = mesh.triangles@;
    let n = mesh.triangles.len();
    let edges = edge_table(&mesh.triangles);
    let (adjacency, irregular) = build_adjacency(&mesh.triangles, &edges);
    let (flipped, components) = propagate_reversals(&mesh.triangles, &adjacency);
    let contradictions = count_contradictions(&mesh.triangles, &edges, &flipped);
    proof {
        lemma_table_size(edges@, face_half_edges(source, source.len()));
        lemma_face_half_edges_len(source, source.len());
        vstd::set_lib::lemma_len_subset(irregular_edges(source), edges@.dom());
        vstd::set_lib::lemma_len_subset(contradicted_edges(source, flipped@), edges@.dom());
        assert(irregular_edges(source).subset_of(edges@.dom()));
    }
    let ghost root_witness = choose|root: Seq<int>, parent: Seq<int>, depth: Seq<nat>|
        propagation_forest(source, flipped@, root, parent, depth) && components_match(
            components@,
            root,
            n as int,
        );
    let mut closed: Vec<bool> = Vec::new();
    let mut c: usize = 0;
    while c < components.len()
        invariant
            c <= components@.len(),
            n == source.len(),
            source == mesh.triangles@,
            table_matches(edges@, face_half_edges(source, source.len())),
            components_match(components@, root_witness.0, n as int),
            closed@.len() == c,
            forall|d: int| 0 <= d < c ==> #[trigger] closed@[d] == is_closed_component(source, components@[d]@),
        decreases components@.len() - c,
    {
        proof {
            let list = components@[c as int]@;
            assert(0 <= c < components@.len());
            assert(list.len() > 0);
            assert(list.no_duplicates());
            assert forall|i: int| 0 <= i < list.len() implies #[trigger] list[i] < n by {
                assert(list[i] < n);
            }
        }
        let is_closed = component_is_closed(&components[c], &mesh.triangles, &edges);
        closed.push(is_closed);
        c = c + 1;
    }
    let mut consistency_flips: usize = 0;
    let mut face: usize = 0;
    while face < n
        invariant
            face <= n,
            n == source.len(),
            mesh.triangles@.len() == n,
            flipped@.len() == n,
            mesh.positions@ == old(mesh).positions@,
            source == old(mesh).triangles@,
            forall|f: int| 0 <= f < face ==> #[trigger] mesh.triangles@[f] == if flipped@[f] {
                reversed(source[f])
            } else {
                source[f]
            },
            forall|f: int| face <= f < n ==> #[trigger] mesh.triangles@[f] == source[f],
            consistency_flips == count_marked(flipped@.take(face as int)),
            consistency_flips <= face,
        decreases n - face,
    {
        proof {
            assert(flipped@.take(face as int + 1).drop_last() =~= flipped@.take(face as int));
        }
        if flipped[face] {
            let t = mesh.triangles[face];
            mesh.triangles.set(face, [t[0], t[2], t[1]]);
            consistency_flips = consistency_flips + 1;
        }
        face = face + 1;
    }
    proof {
        assert(flipped@.take(n as int) =~= flipped@);
    }
    WindingConsistency {
        flipped,
        consistency_flips,
        unresolved_edges: irregular + 2 * contradictions,
        components,
        closed,
    }
}

/// Reverses every face of each closed component whose signed volume is
/// negative, so that closed components enclose positive volume, and returns
/// how many components were reversed.
pub fn orient_closed_components(
    mesh: &mut Mesh,
    components: &Vec<Vec<usize>>,
    closed: &Vec<bool>,
    negative_volume: &Vec<bool>,
) -> (flips: usize)
    requires
        closed@.len() == components@.len(),
        negative_volume@.len() == components@.len(),
        forall|c: int, i: int|
            0 <= c < components@.len() && 0 <= i < components@[c]@.len() ==> #[trigger] components@[c]@[i]
                < old(mesh).triangles@.len(),
    ensures
        final(mesh).positions@ == old(mesh).positions@,
        final(mesh).triangles@.len() == old(mesh).triangles@.len(),
        flips == count_marked(Seq::new(components@.len(), |c: int| closed@[c] && negative_volume@[c])),
        forall|face: int|
            0 <= face < old(mesh).triangles@.len() ==> #[trigger] final(mesh).triangles@[face]
                == if reversal_count(components@, closed@, negative_volume@, face) % 2 == 1 {
                reversed(old(mesh).triangles@[face])
            } else {
                old(mesh).triangles@[face]
            },
{
    let ghost source = mesh.triangles@;
    let ghost chosen = Seq::new(components@.len(), |c: int| closed@[c] && negative_volume@[c]);
    let mut flips: usize = 0;
    let mut c: usize = 0;
    while c < components.len()
        invariant
            c <= components@.len(),
            closed@.len() == components@.len(),
            negative_volume@.len() == components@.len(),
            chosen == Seq::new(components@.len(), |c: int| closed@[c] && negative_volume@[c]),
            mesh.positions@ == old(mesh).positions@,
            mesh.triangles@.len() == source.len(),
            source == old(mesh).triangles@,
            forall|d: int, i: int|
                0 <= d < components@.len() && 0 <= i < components@[d]@.len() ==> #[trigger] components@[d]@[i]
                    < source.len(),
            forall|face: int|
                0 <= face < source.len() ==> #[trigger] mesh.triangles@[face]
                    == if reversal_count(components@.take(c as int), closed@, negative_volume@, face) % 2 == 1 {
                    reversed(source[face])
                } else {
                    source[face]
                },
            flips == count_marked(chosen.take(c as int)),
            flips <= c,
        decreases components@.len() - c,
    {
        proof {
            assert(chosen.take(c as int + 1).drop_last() =~= chosen.take(c as int));
            assert(components@.take(c as int + 1).drop_last() =~= components@.take(c as int));
        }
        if closed[c] && negative_volume[c] {
            let faces = &components[c];
            let mut i: usize = 0;
            let ghost before = mesh.triangles@;
            while i < faces.len()
                invariant
                    i <= faces@.len(),
                    *faces == components@[c as int],
                    mesh.triangles@.len() == source.len(),
                    before.len() == source.len(),
                    forall|j: int| 0 <= j < faces@.len() ==> #[trigger] faces@[j] < source.len(),
                    forall|face: int|
                        0 <= face < source.len() ==> #[trigger] mesh.triangles@[face]
                            == if occurrences(faces@.take(i as int), face) % 2 == 1 {
                            reversed(before[face])
                        } else {
                            before[face]
                        },
                    mesh.positions@ == old(mesh).positions@,
                decreases faces@.len() - i,
            {
                proof {
                    assert(faces@.take(i as int + 1).drop_last() =~= faces@.take(i as int));
                }
                let face = faces[i];
                let t = mesh.triangles[face];
                mesh.triangles.set(face, [t[0], t[2], t[1]]);
                i = i + 1;
            }
            proof {
                assert(faces@.take(i as int) =~= faces@);
            }
            flips = flips + 1;
        }
        c = c + 1;
    }
    proof {
        assert(chosen.take(c as int) =~= chosen);
        assert(components@.take(c as int) =~= components@);
    }
    flips
}

/// How often `face` occurs in a list.
pub open spec fn occurrences(faces: Seq<usize>, face: int) -> nat
    decreases faces.len(),
{
    if faces.len() == 0 {
        0
    } else {
        occurrences(faces.drop_last(), face) + if faces.last() as int == face {
            1nat
        } else {
            0nat
        }
    }
}

/// How often `face` is reversed when every closed component with negative
/// volume is reversed.
pub open spec fn reversal_count(
    components: Seq<Vec<usize>>,
    closed: Seq<bool>,
    negative_volume: Seq<bool>,
    face: int,
) -> nat
    decreases components.len(),
{
    if components.len() == 0 {
        0
    } else {
        let last = components.len() - 1;
        reversal_count(components.drop_last(), closed, negative_volume, face) + if closed[last]
            && negative_volume[last] {
            occurrences(components[last]@, face)
        } else {
            0nat
        }
    }
}

proof fn lemma_flip_follows_orientation(
    triangles: Seq<[u32; 3]>,
    flipped: Seq<bool>,
    root: Seq<int>,
    parent: Seq<int>,
    depth: Seq<nat>,
    orientation: Seq<bool>,
    f: int,
)
    requires
        propagation_forest(triangles, flipped, root, parent, depth),
        orientation.len() == triangles.len(),
        forall|key: u64|
            #[trigger] is_manifold_edge(triangles, key) ==> (orientation[edge_uses(
                triangles,
                key,
            )[0].0 as int] != orientation[edge_uses(triangles, key)[1].0 as int])
                == same_direction(triangles, key),
        0 <= f < triangles.len(),
    ensures
        flipped[f] == (orientation[f] != orientation[root[f]]),
    decreases depth[f],
{
    if root[f] != f {
        let p = parent[f];
        lemma_flip_follows_orientation(triangles, flipped, root, parent, depth, orientation, p);
        let key = choose|key: u64|
            links_faces(triangles, key, f, p) && flipped[f] == (flipped[p] != same_direction(
                triangles,
                key,
            ));
        assert(is_manifold_edge(triangles, key));
    }
}

/// Faces `walk[i]` and `walk[i + 1]` share a manifold edge.
pub open spec fn step_on_manifold_edge(triangles: Seq<[u32; 3]>, walk: Seq<int>, i: int) -> bool {
    exists|key: u64| #[trigger] links_faces(triangles, key, walk[i], walk[i + 1])
}

/// Consecutive faces of `walk` share a manifold edge.
pub open spec fn is_manifold_walk(triangles: Seq<[u32; 3]>, walk: Seq<int>) -> bool {
    &&& walk.len() > 0
    &&& forall|i: int| 0 <= i < walk.len() - 1 ==> #[trigger] step_on_manifold_edge(triangles, walk, i)
}

/// Along a walk over manifold edges, depth grows by at most one per step.
proof fn lemma_depth_along_walk(
    triangles: Seq<[u32; 3]>,
    flipped: Seq<bool>,
    root: Seq<int>,
    parent: Seq<int>,
    depth: Seq<nat>,
    walk: Seq<int>,
)
    requires
        propagation_forest(triangles, flipped, root, parent, depth),
        is_manifold_walk(triangles, walk),
    ensures
        depth[walk.last()] <= depth[walk[0]] + walk.len() - 1,
        root[walk.last()] == root[walk[0]],
    decreases walk.len(),
{
    if walk.len() > 1 {
        let shorter = walk.drop_last();
        assert forall|i: int| 0 <= i < shorter.len() - 1 implies #[trigger] step_on_manifold_edge(
            triangles,
            shorter,
            i,
        ) by {
            assert(shorter[i] == walk[i] && shorter[i + 1] == walk[i + 1]);
            assert(step_on_manifold_edge(triangles, walk, i));
            let key = choose|key: u64| #[trigger] links_faces(triangles, key, walk[i], walk[i + 1]);
            assert(links_faces(triangles, key, shorter[i], shorter[i + 1]));
        }
        lemma_depth_along_walk(triangles, flipped, root, parent, depth, shorter);
        let k = walk.len() - 2;
        assert(step_on_manifold_edge(triangles, walk, k));
        let key = choose|key: u64| #[trigger] links_faces(triangles, key, walk[k], walk[k + 1]);
        assert(is_manifold_edge(triangles, key));
        assert(shorter.last() == walk[k]);
    }
}

/// Following parents from a face back to its root gives a walk of exactly
/// `depth[f]` manifold edges.
proof fn lemma_parent_walk(
    triangles: Seq<[u32; 3]>,
    flipped: Seq<bool>,
    root: Seq<int>,
    parent: Seq<int>,
    depth: Seq<nat>,
    f: int,
) -> (walk: Seq<int>)
    requires
        propagation_forest(triangles, flipped, root, parent, depth),
        0 <= f < triangles.len(),
    ensures
        is_manifold_walk(triangles, walk),
        walk[0] == root[f],
        walk.last() == f,
        walk.len() == depth[f] + 1,
    decreases depth[f],
{
    if root[f] == f {
        seq![f]
    } else {
        let p = parent[f];
        let earlier = lemma_parent_walk(triangles, flipped, root, parent, depth, p);
        let walk = earlier.push(f);
        let key = choose|key: u64|
            links_faces(triangles, key, f, p) && flipped[f] == (flipped[p] != same_direction(
                triangles,
                key,
            ));
        assert(links_faces(triangles, key, p, f));
        assert forall|i: int| 0 <= i < walk.len() - 1 implies #[trigger] step_on_manifold_edge(
            triangles,
            walk,
            i,
        ) by {
            if i < earlier.len() - 1 {
                assert(step_on_manifold_edge(triangles, earlier, i));
                let k = choose|k: u64| #[trigger] links_faces(triangles, k, earlier[i], earlier[i + 1]);
                assert(links_faces(triangles, k, walk[i], walk[i + 1]));
            } else {
                assert(walk[i] == p && walk[i + 1] == f);
                assert(links_faces(triangles, key, walk[i], walk[i + 1]));
            }
        }
        walk
    }
}

/// In a propagation forest, `depth[f]` is the breadth-first distance of `f`
/// from its root: some walk over manifold edges from the root reaches `f` in
/// `depth[f]` steps, and none reaches it in fewer.
pub proof fn lemma_depth_is_breadth_first_distance(
    triangles: Seq<[u32; 3]>,
    flipped: Seq<bool>,
    root: Seq<int>,
    parent: Seq<int>,
    depth: Seq<nat>,
    f: int,
)
    requires
        propagation_forest(triangles, flipped, root, parent, depth),
        0 <= f < triangles.len(),
    ensures
        exists|walk: Seq<int>|
            is_manifold_walk(triangles, walk) && walk[0] == root[f] && walk.last() == f
                && #[trigger] walk.len() == depth[f] + 1,
        forall|walk: Seq<int>|
            is_manifold_walk(triangles, walk) && walk[0] == root[f] && walk.last() == f
                ==> depth[f] <= #[trigger] walk.len() - 1,
{
    let shortest = lemma_parent_walk(triangles, flipped, root, parent, depth, f);
    assert(shortest.len() == depth[f] + 1);
    assert forall|walk: Seq<int>|
        is_manifold_walk(triangles, walk) && walk[0] == root[f] && walk.last() == f
            implies depth[f] <= #[trigger] walk.len() - 1 by {
        lemma_depth_along_walk(triangles, flipped, root, parent, depth, walk);
        assert(root[root[f]] == root[f]);
        assert(depth[root[f]] == 0);
    }
}

/// If some choice of face reversals makes the two faces of every manifold
/// edge agree in winding, propagation leaves no manifold edge contradicted:
/// only edges used once or more than twice stay unresolved.
pub proof fn lemma_consistent_meshes_fully_resolve(
    triangles: Seq<[u32; 3]>,
    flipped: Seq<bool>,
    orientation: Seq<bool>,
)
    requires
        exists|root: Seq<int>, parent: Seq<int>, depth: Seq<nat>|
            propagation_forest(triangles, flipped, root, parent, depth),
        orientation.len() == triangles.len(),
        forall|key: u64|
            #[trigger] is_manifold_edge(triangles, key) ==> (orientation[edge_uses(
                triangles,
                key,
            )[0].0 as int] != orientation[edge_uses(triangles, key)[1].0 as int])
                == same_direction(triangles, key),
    ensures
        contradicted_edges(triangles, flipped) == Set::<u64>::empty(),
{
    let (root, parent, depth) = choose|root: Seq<int>, parent: Seq<int>, depth: Seq<nat>|
        propagation_forest(triangles, flipped, root, parent, depth);
    assert forall|key: u64| !contradicted_edges(triangles, flipped).contains(key) by {
        if is_manifold_edge(triangles, key) {
            let uses = edge_uses(triangles, key);
            lemma_use_faces_bounded(triangles, triangles.len(), key);
            let a = uses[0].0 as int;
            let b = uses[1].0 as int;
            lemma_flip_follows_orientation(triangles, flipped, root, parent, depth, orientation, a);
            lemma_flip_follows_orientation(triangles, flipped, root, parent, depth, orientation, b);
        }
    }
    assert(contradicted_edges(triangles, flipped) =~= Set::<u64>::empty());
}

} // verus!
