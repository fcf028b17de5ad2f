//! From the quads of a chunk to vertex and index buffers.
use vstd::prelude::*;
use crate::chunk::Chunk;
use crate::coords::{chunk_box, padded_chunk_box};
use crate::grid::{point_of, Point};
use crate::quads::{
    array_greedy_quads, face_quad_corners, face_quad_indices, face_signed_normal,
    greedy_quads_result, groups_view, triangle_index, Face, Quad,
};
use crate::voxel::Voxel;
use crate::quads::MAX_QUAD_EDGE;
use crate::{CHUNK_SIZE_X, CHUNK_SIZE_Y, CHUNK_SIZE_Z};

verus! {

/// Most quads that one mesh takes: four vertices each, numbered in 32 bits.
pub const MAX_QUADS: usize = 0x3fff_ffff;

/// The buffers of one chunk's surface. Positions, normals and texture coordinates
/// are whole numbers of voxels; every four consecutive vertices make one quad, and
/// every six consecutive indices its two triangles.
#[derive(Debug)]
pub struct ChunkMesh {
    pub positions: Vec<[i32; 3]>,
    pub normals: Vec<[i32; 3]>,
    pub indices: Vec<u32>,
    pub uv: Vec<[i32; 2]>,
    pub colors: Vec<[u8; 4]>,
}

/// The buffers of a mesh as sequences of mathematical values.
pub struct MeshView {
    pub positions: Seq<Point>,
    pub normals: Seq<Point>,
    pub indices: Seq<int>,
    pub uv: Seq<(int, int)>,
    pub colors: Seq<[u8; 4]>,
}

impl View for ChunkMesh {
    type V = MeshView;

    open spec fn view(&self) -> MeshView {
        MeshView {
            positions: self.positions@.map_values(|p: [i32; 3]| point_of(p)),
            normals: self.normals@.map_values(|p: [i32; 3]| point_of(p)),
            indices: self.indices@.map_values(|i: u32| i as int),
            uv: self.uv@.map_values(|t: [i32; 2]| (t[0] as int, t[1] as int)),
            colors: self.colors@,
        }
    }
}

/// The mesh without a vertex.
pub open spec fn empty_mesh() -> MeshView {
    MeshView {
        positions: Seq::empty(),
        normals: Seq::empty(),
        indices: Seq::empty(),
        uv: Seq::empty(),
        colors: Seq::empty(),
    }
}

/// `m` with one more quad: its four corners, the face's normal and the colour four
/// times each, its texture coordinates, and two triangles over the new vertices.
pub open spec fn quad_pushed(m: MeshView, face: Face, quad: Quad, color: [u8; 4]) -> MeshView {
    MeshView {
        positions: m.positions + Seq::new(4, |j: int| quad.corner(face, j)),
        normals: m.normals + Seq::new(4, |j: int| face.normal()),
        indices: m.indices + Seq::new(
            6,
            |j: int| triangle_index(face, m.positions.len() as int, j),
        ),
        uv: m.uv + Seq::new(4, |j: int| quad.tex_coord(face, j)),
        colors: m.colors + Seq::new(4, |j: int| color),
    }
}

/// `m` with the quads of one face, in their order, each coloured as the voxel at
/// its least corner.
pub open spec fn group_pushed(m: MeshView, cells: Map<Point, Voxel>, face: Face, quads: Seq<Quad>) -> MeshView
    decreases quads.len(),
{
    if quads.len() == 0 {
        m
    } else {
        quad_pushed(
            group_pushed(m, cells, face, quads.drop_last()),
            face,
            quads.last(),
            cells[quads.last().min_point()].attributes,
        )
    }
}

/// The face that stands at `i` among the six.
pub open spec fn face_at(i: int) -> Face {
    if i == 0 {
        Face::NegX
    } else if i == 1 {
        Face::NegY
    } else if i == 2 {
        Face::NegZ
    } else if i == 3 {
        Face::PosX
    } else if i == 4 {
        Face::PosY
    } else {
        Face::PosZ
    }
}

/// The mesh of the first `n` groups of quads, group `i` lying on face `i`.
pub open spec fn mesh_of_groups(cells: Map<Point, Voxel>, groups: Seq<Seq<Quad>>, n: int) -> MeshView
    decreases n,
{
    if n <= 0 {
        empty_mesh()
    } else {
        group_pushed(mesh_of_groups(cells, groups, n - 1), cells, face_at(n - 1), groups[n - 1])
    }
}

/// The mesh of six groups of quads over a chunk's cells.
pub open spec fn mesh_of(cells: Map<Point, Voxel>, groups: Seq<Seq<Quad>>) -> MeshView {
    mesh_of_groups(cells, groups, 6)
}

/// The number of quads in the first `n` groups.
pub open spec fn count_quads(groups: Seq<Seq<Quad>>, n: int) -> int
    decreases n,
{
    if n <= 0 {
        0
    } else {
        count_quads(groups, n - 1) + groups[n - 1].len()
    }
}

/// Whether a mesh can be built of the groups: there are six of them, every quad
/// lies within a chunk, and there are no more than `MAX_QUADS` quads.
pub open spec fn quads_fit(groups: Seq<Seq<Quad>>) -> bool {
    &&& groups.len() == 6
    &&& forall|f: int, i: int|
        0 <= f < 6 && 0 <= i < groups[f].len() ==> (#[trigger] groups[f][i]).fits()
    &&& count_quads(groups, 6) <= MAX_QUADS
}

impl ChunkMesh {
    /// The mesh without a vertex.
    pub fn new() -> (mesh: ChunkMesh)
        ensures
            mesh@ == empty_mesh(),
    {
        let mesh = ChunkMesh {
            positions: Vec::new(),
            normals: Vec::new(),
            indices: Vec::new(),
            uv: Vec::new(),
            colors: Vec::new(),
        };
        assert(mesh@.positions =~= empty_mesh().positions);
        assert(mesh@.normals =~= empty_mesh().normals);
        assert(mesh@.indices =~= empty_mesh().indices);
        assert(mesh@.uv =~= empty_mesh().uv);
        assert(mesh@.colors =~= empty_mesh().colors);
        mesh
    }

    /// Adds one quad on `face`, coloured as `voxel`.
    pub fn add_quad_to_mesh(&mut self, face: Face, quad: &Quad, voxel: &Voxel)
        requires
            quad.fits(),
            old(self)@.positions.len() + 4 <= u32::MAX,
        ensures
            final(self)@ == quad_pushed(old(self)@, face, *quad, voxel.attributes),
    {
        assert(self@.positions.len() == self.positions@.len());
        let start_index: u32 = self.positions.len() as u32;
        let corners = face_quad_corners(face, quad);
        let normal = face_signed_normal(face);
        let triangles = face_quad_indices(face, start_index);
        let tex = quad_tex_coords(face, quad);
        let mut j: usize = 0;
        while j < 4
            invariant
                0 <= j <= 4,
                self.positions@ == old(self).positions@ + Seq::new(j as nat, |k: int| corners[k]),
                self.normals@ == old(self).normals@ + Seq::new(j as nat, |k: int| normal),
                self.uv@ == old(self).uv@ + Seq::new(j as nat, |k: int| tex[k]),
                self.colors@ == old(self).colors@ + Seq::new(j as nat, |k: int| voxel.attributes),
                self.indices@ == old(self).indices@,
            decreases 4 - j,
        {
            self.positions.push(corners[j]);
            self.normals.push(normal);
            self.uv.push(tex[j]);
            self.colors.push(voxel.attributes);
            j = j + 1;
            assert(self.positions@ =~= old(self).positions@ + Seq::new(j as nat, |k: int| corners[k]));
            assert(self.normals@ =~= old(self).normals@ + Seq::new(j as nat, |k: int| normal));
            assert(self.uv@ =~= old(self).uv@ + Seq::new(j as nat, |k: int| tex[k]));
            assert(self.colors@ =~= old(self).colors@ + Seq::new(
                j as nat,
                |k: int| voxel.attributes,
            ));
        }
        let mut t: usize = 0;
        while t < 6
            invariant
                0 <= t <= 6,
                self.positions@ == old(self).positions@ + Seq::new(4, |k: int| corners[k]),
                self.normals@ == old(self).normals@ + Seq::new(4, |k: int| normal),
                self.uv@ == old(self).uv@ + Seq::new(4, |k: int| tex[k]),
                self.colors@ == old(self).colors@ + Seq::new(4, |k: int| voxel.attributes),
                self.indices@ == old(self).indices@ + Seq::new(t as nat, |k: int| triangles[k]),
            decreases 6 - t,
        {
            self.indices.push(triangles[t]);
            t = t + 1;
            assert(self.indices@ =~= old(self).indices@ + Seq::new(t as nat, |k: int| triangles[k]));
        }
        proof {
            let want = quad_pushed(old(self)@, face, *quad, voxel.attributes);
            assert(self@.positions =~= want.positions);
            assert(self@.normals =~= want.normals);
            assert(self@.indices =~= want.indices);
            assert(self@.uv =~= want.uv);
            assert(self@.colors =~= want.colors);
        }
    }
}

/// The texture coordinates of a quad's four corners on `face`.
pub fn quad_tex_coords(face: Face, quad: &Quad) -> (tex: [[i32; 2]; 4])
    ensures
        forall|j: int|
            0 <= j < 4 ==> ((#[trigger] tex[j])[0] as int, tex[j][1] as int) == quad.tex_coord(
                face,
                j,
            ),
{
    let w = quad.width;
    let h = quad.height;
    match face {
        Face::NegY | Face::NegZ | Face::PosX => [[w, 0], [0, 0], [w, h], [0, h]],
        Face::NegX | Face::PosY | Face::PosZ => [[0, 0], [w, 0], [0, h], [w, h]],
    }
}

/// Whether one quad lies within a chunk.
pub fn quad_fits(quad: &Quad) -> (fits: bool)
    ensures
        fits == quad.fits(),
{
    let m = quad.minimum;
    assert(chunk_box().contains(point_of(m)) <==> (0 <= m[0] < CHUNK_SIZE_X && 0 <= m[1]
        < CHUNK_SIZE_Y && 0 <= m[2] < CHUNK_SIZE_Z));
    0 <= m[0] && m[0] < CHUNK_SIZE_X && 0 <= m[1] && m[1] < CHUNK_SIZE_Y && 0 <= m[2] && m[2]
        < CHUNK_SIZE_Z && 1 <= quad.width && quad.width <= MAX_QUAD_EDGE && 1 <= quad.height
        && quad.height <= MAX_QUAD_EDGE
}

/// Whether a mesh can be built of the groups.
pub fn check_quads(groups: &Vec<Vec<Quad>>) -> (fit: bool)
    ensures
        fit == quads_fit(groups_view(*groups)),
{
    let ghost gv = groups_view(*groups);
    if groups.len() != 6 {
        return false;
    }
    let mut count: usize = 0;
    let mut f: usize = 0;
    while f < 6
        invariant
            0 <= f <= 6,
            groups.len() == 6,
            gv.len() == 6,
            gv == groups_view(*groups),
            count == count_quads(gv, f as int),
            count <= MAX_QUADS,
            forall|g: int, i: int|
                0 <= g < f && 0 <= i < gv[g].len() ==> (#[trigger] gv[g][i]).fits(),
        decreases 6 - f,
    {
        let group = &groups[f];
        assert(gv[f as int] == group@);
        if group.len() > MAX_QUADS - count {
            proof {
                lemma_count_quads_grows(gv, f as int + 1, 6);
            }
            return false;
        }
        let mut i: usize = 0;
        while i < group.len()
            invariant
                0 <= i <= group.len(),
                0 <= f < 6,
                gv.len() == 6,
                gv == groups_view(*groups),
                gv[f as int] == group@,
                forall|k: int| 0 <= k < i ==> (#[trigger] group@[k]).fits(),
            decreases group.len() - i,
        {
            if !quad_fits(&group[i]) {
                assert(!gv[f as int][i as int].fits());
                return false;
            }
            i = i + 1;
        }
        count = count + group.len();
        f = f + 1;
    }
    true
}

/// The number of quads in the first groups does not shrink as more are counted.
proof fn lemma_count_quads_grows(groups: Seq<Seq<Quad>>, n: int, m: int)
    requires
        0 <= n <= m,
    ensures
        count_quads(groups, n) <= count_quads(groups, m),
    decreases m - n,
{
    if n < m {
        lemma_count_quads_grows(groups, n, m - 1);
    }
}

/// The mesh of six groups of quads over a chunk: the quads of each face in turn,
/// each coloured as the voxel at its least corner.
pub fn build_mesh(chunk: &Chunk, groups: &Vec<Vec<Quad>>) -> (mesh: ChunkMesh)
    requires
        chunk.wf(),
        quads_fit(groups_view(*groups)),
    ensures
        mesh@ == mesh_of(chunk.cells(), groups_view(*groups)),
{
    let ghost gv = groups_view(*groups);
    let ghost cells = chunk.cells();
    let mut mesh = ChunkMesh::new();
    let mut f: usize = 0;
    while f < 6
        invariant
            0 <= f <= 6,
            chunk.wf(),
            cells == chunk.cells(),
            gv == groups_view(*groups),
            quads_fit(gv),
            mesh@ == mesh_of_groups(cells, gv, f as int),
            mesh@.positions.len() == 4 * count_quads(gv, f as int),
        decreases 6 - f,
    {
        let face = match Face::from_index(f) {
            Some(face) => face,
            None => Face::NegX,
        };
        assert(face == face_at(f as int));
        let group = &groups[f];
        assert(gv[f as int] == group@);
        let ghost base = mesh@;
        proof {
            lemma_count_quads_grows(gv, f as int + 1, 6);
        }
        let mut i: usize = 0;
        while i < group.len()
            invariant
                0 <= i <= group.len(),
                0 <= f < 6,
                chunk.wf(),
                cells == chunk.cells(),
                quads_fit(gv),
                gv[f as int] == group@,
                count_quads(gv, f as int) + group.len() <= MAX_QUADS,
                mesh@ == group_pushed(base, cells, face, group@.take(i as int)),
                mesh@.positions.len() == 4 * (count_quads(gv, f as int) + i),
            decreases group.len() - i,
        {
            let quad = &group[i];
            assert(gv[f as int][i as int].fits());
            let m = quad.minimum;
            assert(chunk_box().contains(point_of(m)));
            assert(padded_chunk_box().contains(point_of(m)));
            let voxel = match chunk.voxel_at(m) {
                Some(v) => v,
                None => Voxel::default(),
            };
            assert(voxel == cells[quad.min_point()]);
            assert(group@.take(i as int + 1).drop_last() =~= group@.take(i as int));
            assert(group@.take(i as int + 1).last() == *quad);
            mesh.add_quad_to_mesh(face, quad, &voxel);
            i = i + 1;
        }
        assert(group@.take(group.len() as int) =~= group@);
        f = f + 1;
    }
    mesh
}

/// The mesh of a chunk's surface: the greedy mesher's quads, turned into buffers.
/// `None` where the mesher's quads do not fit a chunk, which leaves nothing to
/// build of.
pub fn mesh_chunk(chunk: &Chunk) -> (mesh: Option<ChunkMesh>)
    requires
        chunk.wf(),
    ensures
        match mesh {
            Some(m) => quads_fit(greedy_quads_result(chunk.cells())) && m@ == mesh_of(
                chunk.cells(),
                greedy_quads_result(chunk.cells()),
            ),
            None => !quads_fit(greedy_quads_result(chunk.cells())),
        },
{
    let groups = array_greedy_quads(chunk.block_data());
    if check_quads(&groups) {
        Some(build_mesh(chunk, &groups))
    } else {
        None
    }
}

} // verus!
