//! The index bookkeeping of meshes: merging meshes into one, and placing a
//! mesh's indices into the vertex chunks a combined buffer gave it.
use vstd::prelude::*;
use crate::memory::SharedSimpleBufferAllocation;

verus! {

/// The vertices of the meshes `groups` (vertices, indices), one mesh after
/// the other.
pub open spec fn merged_vertices<T>(groups: Seq<(Vec<T>, Vec<u32>)>) -> Seq<T>
    decreases groups.len(),
{
    if groups.len() == 0 {
        Seq::empty()
    } else {
        merged_vertices(groups.drop_last()) + groups.last().0@
    }
}

/// The indices of the meshes `groups`, each mesh's indices moved past the
/// vertices of the meshes before it.
pub open spec fn merged_indices<T>(groups: Seq<(Vec<T>, Vec<u32>)>) -> Seq<int>
    decreases groups.len(),
{
    if groups.len() == 0 {
        Seq::empty()
    } else {
        let offset = merged_vertices(groups.drop_last()).len();
        merged_indices(groups.drop_last()) + groups.last().1@.map_values(|i: u32| i + offset)
    }
}

/// Merging keeps every index pointing at the vertex it named: index `k` of
/// mesh `g`, found in the merged indices after the indices of the meshes
/// before `g`, names in the merged vertices the vertex it named in mesh `g`.
pub proof fn law_merged_index_keeps_vertex<T>(groups: Seq<(Vec<T>, Vec<u32>)>, g: int, k: int)
    requires
        0 <= g < groups.len(),
        0 <= k < groups[g].1@.len(),
        groups[g].1@[k] < groups[g].0@.len(),
    ensures
        ({
            let p = merged_indices(groups.take(g)).len() + k;
            &&& p < merged_indices(groups).len()
            &&& 0 <= merged_indices(groups)[p] < merged_vertices(groups).len()
            &&& merged_vertices(groups)[merged_indices(groups)[p]] == groups[g].0@[groups[g].1@[k] as int]
        }),
    decreases groups.len(),
{
    let d = groups.drop_last();
    let p = merged_indices(groups.take(g)).len() + k;
    if g == groups.len() - 1 {
        assert(groups.take(g) =~= d);
        let offset = merged_vertices(d).len();
        let added = groups.last().1@.map_values(|i: u32| i + offset);
        assert(merged_indices(groups) == merged_indices(d) + added);
        assert(merged_indices(groups)[p] == added[k]);
        assert(merged_vertices(groups) == merged_vertices(d) + groups.last().0@);
    } else {
        assert(d.take(g) =~= groups.take(g));
        assert(d[g] == groups[g]);
        law_merged_index_keeps_vertex(d, g, k);
        let offset = merged_vertices(d).len();
        let added = groups.last().1@.map_values(|i: u32| i + offset);
        assert(merged_indices(groups) == merged_indices(d) + added);
        assert(merged_indices(groups)[p] == merged_indices(d)[p]);
        assert(merged_vertices(groups) == merged_vertices(d) + groups.last().0@);
    }
}

/// Every index of the merged mesh fits its type.
pub open spec fn merge_fits<T>(groups: Seq<(Vec<T>, Vec<u32>)>) -> bool {
    forall|g: int, k: int| 0 <= g < groups.len() && 0 <= k < groups[g].1@.len()
        ==> groups[g].1@[k] + merged_vertices(groups.take(g)).len() <= u32::MAX
}

/// Merges the meshes `groups`, given as (vertices, indices), into one: the
/// vertices one mesh after the other, and each mesh's indices moved past the
/// vertices of the meshes before it.
pub fn merge_meshes<T: Copy>(groups: &Vec<(Vec<T>, Vec<u32>)>) -> (r: (Vec<T>, Vec<u32>))
    requires
        merge_fits(groups@),
    ensures
        r.0@ == merged_vertices(groups@),
        r.1@.len() == merged_indices(groups@).len(),
        forall|k: int| 0 <= k < r.1@.len() ==> r.1@[k] == merged_indices(groups@)[k],
{
    let mut vertices: Vec<T> = Vec::new();
    let mut indices: Vec<u32> = Vec::new();
    let mut g: usize = 0;
    while g < groups.len()
        invariant
            g <= groups@.len(),
            merge_fits(groups@),
            vertices@ == merged_vertices(groups@.take(g as int)),
            indices@.len() == merged_indices(groups@.take(g as int)).len(),
            forall|k: int| 0 <= k < indices@.len() ==> indices@[k] == merged_indices(groups@.take(g as int))[k],
        decreases groups@.len() - g,
    {
        let ghost before_v = vertices@;
        let ghost before_i = indices@;
        let ghost prefix = groups@.take(g as int);
        let ghost next = groups@.take(g + 1);
        assert(next.drop_last() =~= prefix);
        assert(next.last() == groups@[g as int]);
        let offset = vertices.len();
        let mesh_indices = &groups[g].1;
        let mut k: usize = 0;
        while k < mesh_indices.len()
            invariant
                k <= mesh_indices@.len(),
                mesh_indices@ == groups@[g as int].1@,
                g < groups@.len(),
                merge_fits(groups@),
                offset == merged_vertices(prefix).len(),
                prefix == groups@.take(g as int),
                indices@.len() == before_i.len() + k,
                before_i.len() == merged_indices(prefix).len(),
                forall|j: int| 0 <= j < before_i.len() ==> #[trigger] indices@[j] == merged_indices(prefix)[j],
                forall|j: int| 0 <= j < k ==> indices@[before_i.len() + j] == mesh_indices@[j] + offset,
            decreases mesh_indices@.len() - k,
        {
            assert(mesh_indices@[k as int] + merged_vertices(groups@.take(g as int)).len() <= u32::MAX);
            indices.push(mesh_indices[k] + offset as u32);
            k = k + 1;
        }
        let ghost after_i = indices@;
        assert(forall|j: int| 0 <= j < mesh_indices@.len() ==> after_i[before_i.len() + j] == mesh_indices@[j] + offset);
        assert(after_i.len() == before_i.len() + mesh_indices@.len());
        let mesh_vertices = &groups[g].0;
        let mut k: usize = 0;
        while k < mesh_vertices.len()
            invariant
                k <= mesh_vertices@.len(),
                g < groups@.len(),
                mesh_vertices@ == groups@[g as int].0@,
                vertices@ == before_v + mesh_vertices@.take(k as int),
            decreases mesh_vertices@.len() - k,
        {
            vertices.push(mesh_vertices[k]);
            assert(vertices@ =~= before_v + mesh_vertices@.take(k + 1));
            k = k + 1;
        }
        proof {
            assert(mesh_vertices@.take(k as int) =~= mesh_vertices@);
            let added = groups@[g as int].1@.map_values(|i: u32| i + merged_vertices(prefix).len());
            assert(merged_indices(next) =~= merged_indices(prefix) + added);
            assert forall|j: int| 0 <= j < indices@.len() implies indices@[j] == merged_indices(next)[j] by {
                assert(indices@ == after_i);
                if j >= before_i.len() {
                    let j2 = j - before_i.len();
                    assert(after_i[before_i.len() + j2] == mesh_indices@[j2] + offset);
                    assert(added[j2] == groups@[g as int].1@[j2] + merged_vertices(prefix).len());
                } else {
                    assert(after_i[j] == merged_indices(prefix)[j]);
                    assert((merged_indices(prefix) + added)[j] == merged_indices(prefix)[j]);
                }
            }
        }
        g = g + 1;
    }
    proof {
        assert(groups@.take(g as int) =~= groups@);
    }
    (vertices, indices)
}

/// Where index `i` of a mesh lands once its vertices were placed, a chunk of
/// `per_chunk` vertices at a time, into the chunks `chunks`: moved on by the
/// first vertex of the chunk that holds chunk `i / per_chunk`.
pub open spec fn placed_index(i: u32, chunks: Seq<SharedSimpleBufferAllocation>, per_chunk: nat) -> int {
    i + chunks[(i as int) / (per_chunk as int)].index * per_chunk
}

/// The indices of a mesh whose vertices were placed, `vertices_per_chunk`
/// at a time, into the vertex chunks `chunks` (see [`placed_index`]).
pub fn place_indices(
    indices: &Vec<u32>,
    chunks: &Vec<SharedSimpleBufferAllocation>,
    vertices_per_chunk: usize,
) -> (r: Vec<u32>)
    requires
        vertices_per_chunk > 0,
        forall|k: int| 0 <= k < indices@.len() ==> (#[trigger] indices@[k] as int) / (vertices_per_chunk as int) < chunks@.len()
            && placed_index(indices@[k], chunks@, vertices_per_chunk as nat) <= u32::MAX,
    ensures
        r@.len() == indices@.len(),
        forall|k: int| 0 <= k < r@.len() ==> r@[k] == placed_index(indices@[k], chunks@, vertices_per_chunk as nat),
{
    let mut r: Vec<u32> = Vec::new();
    let mut k: usize = 0;
    while k < indices.len()
        invariant
            k <= indices@.len(),
            vertices_per_chunk > 0,
            forall|j: int| 0 <= j < indices@.len() ==> (#[trigger] indices@[j] as int) / (vertices_per_chunk as int) < chunks@.len()
                && placed_index(indices@[j], chunks@, vertices_per_chunk as nat) <= u32::MAX,
            r@.len() == k,
            forall|j: int| 0 <= j < k ==> r@[j] == placed_index(indices@[j], chunks@, vertices_per_chunk as nat),
        decreases indices@.len() - k,
    {
        let i = indices[k];
        let chunk = i as usize / vertices_per_chunk;
        assert((indices@[k as int] as int) / (vertices_per_chunk as int) < chunks@.len());
        let start = chunks[chunk].index;
        let ghost bound = placed_index(i, chunks@, vertices_per_chunk as nat);
        assert(start * vertices_per_chunk <= u32::MAX) by (nonlinear_arith)
            requires
                i + start * vertices_per_chunk == bound,
                bound <= u32::MAX,
                0 <= i;
        let offset = start * vertices_per_chunk;
        r.push(i + offset as u32);
        k = k + 1;
    }
    r
}

} // verus!
