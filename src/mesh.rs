use vstd::prelude::*;
use crate::square_march::EdgeProfile;

verus! {

/// A position in fixed-point units.
pub type Position = (i64, i64, i64);

/// Whether `v` fits an `i64`.
pub open spec fn in_i64(v: int) -> bool {
    i64::MIN <= v <= i64::MAX
}

/// A mesh corner: a position and an RGB colour.
#[derive(Clone, Copy, Debug)]
pub struct Vertex {
    pub position: Position,
    pub colour: (u8, u8, u8),
}

/// Whether `p + t` fits an `i64` on every axis.
pub open spec fn can_translate(p: Position, t: Position) -> bool {
    &&& in_i64(p.0 + t.0)
    &&& in_i64(p.1 + t.1)
    &&& in_i64(p.2 + t.2)
}

/// Whether `p` scaled axis by axis by `f` fits an `i64` on every axis.
pub open spec fn can_transform(p: Position, f: Position) -> bool {
    &&& in_i64(p.0 * f.0)
    &&& in_i64(p.1 * f.1)
    &&& in_i64(p.2 * f.2)
}

/// Whether a quarter turn of `p` fits an `i64`.
pub open spec fn can_rotate(p: Position) -> bool {
    p.0 != i64::MIN
}

/// `v` moved by `t`.
pub open spec fn translated(v: Vertex, t: Position) -> Vertex {
    Vertex {
        position: ((v.position.0 + t.0) as i64, (v.position.1 + t.1) as i64, (v.position.2 + t.2) as i64),
        colour: v.colour,
    }
}

/// `v` scaled axis by axis by `f`.
pub open spec fn transformed(v: Vertex, f: Position) -> Vertex {
    Vertex {
        position: ((v.position.0 * f.0) as i64, (v.position.1 * f.1) as i64, (v.position.2 * f.2) as i64),
        colour: v.colour,
    }
}

/// A quarter turn about the z axis: `(x, y, z)` becomes `(y, -x, z)`.
pub open spec fn rotated(v: Vertex) -> Vertex {
    Vertex { position: (v.position.1, (-v.position.0) as i64, v.position.2), colour: v.colour }
}

impl Vertex {
    /// Multiplies every coordinate by `factor`.
    pub fn scale(&mut self, factor: i64)
        requires
            can_transform(old(self).position, (factor, factor, factor)),
        ensures
            *final(self) == transformed(*old(self), (factor, factor, factor)),
    {
        self.transform((factor, factor, factor));
    }

    /// Adds `translation` to the position.
    pub fn translate(&mut self, translation: Position)
        requires
            can_translate(old(self).position, translation),
        ensures
            *final(self) == translated(*old(self), translation),
    {
        self.position = (
            self.position.0 + translation.0,
            self.position.1 + translation.1,
            self.position.2 + translation.2,
        );
    }

    /// Multiplies each coordinate by the matching one of `transformation`.
    pub fn transform(&mut self, transformation: Position)
        requires
            can_transform(old(self).position, transformation),
        ensures
            *final(self) == transformed(*old(self), transformation),
    {
        self.position = (
            self.position.0 * transformation.0,
            self.position.1 * transformation.1,
            self.position.2 * transformation.2,
        );
    }

    /// Turns the position a quarter turn about the z axis (see `rotated`);
    /// the turn is the same whichever way is asked for.
    pub fn rotate90(&mut self, _counter_clock: bool)
        requires
            can_rotate(old(self).position),
        ensures
            *final(self) == rotated(*old(self)),
    {
        self.position = (self.position.1, -self.position.0, self.position.2);
    }
}

/// The mathematical content of a mesh.
pub struct MeshView {
    pub vertices: Seq<Vertex>,
    pub indices: Seq<u16>,
}

/// Largest number of vertices a mesh may hold: every index fits 16 bits.
pub const MAX_VERTICES: usize = 0x1_0000;

impl MeshView {
    /// Every index names a vertex, and there are few enough vertices for
    /// 16-bit indices.
    pub open spec fn wf(self) -> bool {
        &&& self.vertices.len() <= MAX_VERTICES
        &&& forall|k: int| 0 <= k < self.indices.len() ==> (#[trigger] self.indices[k]) < self.vertices.len()
    }

    /// No vertices and no triangles.
    pub open spec fn empty() -> MeshView {
        MeshView { vertices: Seq::empty(), indices: Seq::empty() }
    }

    /// Every vertex moved by `t`.
    pub open spec fn translate(self, t: Position) -> MeshView {
        MeshView { vertices: self.vertices.map_values(|v: Vertex| translated(v, t)), indices: self.indices }
    }

    /// Every vertex scaled axis by axis by `f`.
    pub open spec fn transform(self, f: Position) -> MeshView {
        MeshView { vertices: self.vertices.map_values(|v: Vertex| transformed(v, f)), indices: self.indices }
    }

    /// Every vertex turned a quarter turn.
    pub open spec fn rotate(self) -> MeshView {
        MeshView { vertices: self.vertices.map_values(|v: Vertex| rotated(v)), indices: self.indices }
    }

    /// `n` quarter turns.
    pub open spec fn rotate_n(self, n: nat) -> MeshView
        decreases n,
    {
        if n == 0 {
            self
        } else {
            self.rotate_n((n - 1) as nat).rotate()
        }
    }

    /// The vertices of `other` appended, and its indices rebased past ours.
    pub open spec fn union(self, other: MeshView) -> MeshView {
        MeshView {
            vertices: self.vertices + other.vertices,
            indices: self.indices + other.indices.map_values(|k: u16| (k + self.vertices.len()) as u16),
        }
    }

    /// Every vertex can be moved by `t` without overflow.
    pub open spec fn can_translate(self, t: Position) -> bool {
        forall|i: int| 0 <= i < self.vertices.len() ==> can_translate(#[trigger] self.vertices[i].position, t)
    }

    /// Every vertex can be scaled by `f` without overflow.
    pub open spec fn can_transform(self, f: Position) -> bool {
        forall|i: int| 0 <= i < self.vertices.len() ==> can_transform(#[trigger] self.vertices[i].position, f)
    }

    /// Every vertex can be turned without overflow.
    pub open spec fn can_rotate(self) -> bool {
        forall|i: int| 0 <= i < self.vertices.len() ==> can_rotate(#[trigger] self.vertices[i].position)
    }
}

/// Triangles over a vertex list: each three consecutive indices are one
/// triangle.
#[derive(Clone, Debug)]
pub struct Mesh {
    pub vertices: Vec<Vertex>,
    pub indices: Vec<u16>,
}

impl View for Mesh {
    type V = MeshView;

    open spec fn view(&self) -> MeshView {
        MeshView { vertices: self.vertices@, indices: self.indices@ }
    }
}

impl Mesh {
    /// A mesh with no vertices and no triangles.
    pub fn empty() -> (r: Mesh)
        ensures
            r@ == MeshView::empty(),
    {
        let r = Mesh { vertices: Vec::new(), indices: Vec::new() };
        assert(r@.vertices =~= Seq::empty());
        assert(r@.indices =~= Seq::empty());
        r
    }

    /// Multiplies every coordinate of every vertex by `factor`.
    pub fn scale(&mut self, factor: i64)
        requires
            old(self)@.can_transform((factor, factor, factor)),
        ensures
            final(self)@ == old(self)@.transform((factor, factor, factor)),
    {
        self.transform((factor, factor, factor));
    }

    /// Moves every vertex by `translation`.
    pub fn translate(&mut self, translation: Position)
        requires
            old(self)@.can_translate(translation),
        ensures
            final(self)@ == old(self)@.translate(translation),
    {
        let ghost v0 = self.vertices@;
        let mut i: usize = 0;
        while i < self.vertices.len()
            invariant
                self.vertices@.len() == v0.len(),
                self.indices@ == old(self).indices@,
                v0 == old(self).vertices@,
                old(self)@.can_translate(translation),
                i <= v0.len(),
                forall|k: int| 0 <= k < v0.len() ==> #[trigger] self.vertices@[k] == if k < i {
                    translated(v0[k], translation)
                } else {
                    v0[k]
                },
            decreases v0.len() - i,
        {
            let mut v = self.vertices[i];
            assert(can_translate(old(self)@.vertices[i as int].position, translation));
            v.translate(translation);
            self.vertices.set(i, v);
            i = i + 1;
        }
        assert(self@.vertices =~= old(self)@.translate(translation).vertices);
    }

    /// Scales every vertex axis by axis by `transformation`.
    pub fn transform(&mut self, transformation: Position)
        requires
            old(self)@.can_transform(transformation),
        ensures
            final(self)@ == old(self)@.transform(transformation),
    {
        let ghost v0 = self.vertices@;
        let mut i: usize = 0;
        while i < self.vertices.len()
            invariant
                self.vertices@.len() == v0.len(),
                self.indices@ == old(self).indices@,
                v0 == old(self).vertices@,
                old(self)@.can_transform(transformation),
                i <= v0.len(),
                forall|k: int| 0 <= k < v0.len() ==> #[trigger] self.vertices@[k] == if k < i {
                    transformed(v0[k], transformation)
                } else {
                    v0[k]
                },
            decreases v0.len() - i,
        {
            let mut v = self.vertices[i];
            assert(can_transform(old(self)@.vertices[i as int].position, transformation));
            v.transform(transformation);
            self.vertices.set(i, v);
            i = i + 1;
        }
        assert(self@.vertices =~= old(self)@.transform(transformation).vertices);
    }

    /// Turns every vertex a quarter turn about the z axis.
    pub fn rotate90(&mut self, counter_clock: bool)
        requires
            old(self)@.can_rotate(),
        ensures
            final(self)@ == old(self)@.rotate(),
    {
        let ghost v0 = self.vertices@;
        let mut i: usize = 0;
        while i < self.vertices.len()
            invariant
                self.vertices@.len() == v0.len(),
                self.indices@ == old(self).indices@,
                v0 == old(self).vertices@,
                old(self)@.can_rotate(),
                i <= v0.len(),
                forall|k: int| 0 <= k < v0.len() ==> #[trigger] self.vertices@[k] == if k < i {
                    rotated(v0[k])
                } else {
                    v0[k]
                },
            decreases v0.len() - i,
        {
            let mut v = self.vertices[i];
            assert(can_rotate(old(self)@.vertices[i as int].position));
            v.rotate90(counter_clock);
            self.vertices.set(i, v);
            i = i + 1;
        }
        assert(self@.vertices =~= old(self)@.rotate().vertices);
    }

    /// Appends `mesh`: its vertices after ours, its indices rebased past our
    /// vertices. The two together must fit 16-bit indices.
    pub fn union(&mut self, mesh: &Mesh)
        requires
            old(self)@.wf(),
            mesh@.wf(),
            old(self).vertices@.len() + mesh.vertices@.len() <= MAX_VERTICES,
        ensures
            final(self)@ == old(self)@.union(mesh@),
            final(self)@.wf(),
    {
        let offset: usize = self.vertices.len();
        let mut i: usize = 0;
        while i < mesh.vertices.len()
            invariant
                i <= mesh.vertices@.len(),
                offset == old(self).vertices@.len(),
                self.vertices@ == old(self).vertices@ + mesh.vertices@.take(i as int),
                self.indices@ == old(self).indices@,
            decreases mesh.vertices@.len() - i,
        {
            self.vertices.push(mesh.vertices[i]);
            i = i + 1;
            assert(self.vertices@ =~= old(self).vertices@ + mesh.vertices@.take(i as int));
        }
        assert(mesh.vertices@.take(i as int) =~= mesh.vertices@);
        let ghost target = old(self)@.union(mesh@);
        let mut k: usize = 0;
        while k < mesh.indices.len()
            invariant
                k <= mesh.indices@.len(),
                mesh@.wf(),
                offset == old(self).vertices@.len(),
                offset + mesh.vertices@.len() <= MAX_VERTICES,
                target == old(self)@.union(mesh@),
                self.vertices@ == target.vertices,
                self.indices@ == target.indices.take(old(self).indices@.len() + k),
            decreases mesh.indices@.len() - k,
        {
            let idx: u16 = mesh.indices[k];
            assert(mesh@.indices[k as int] < mesh@.vertices.len());
            self.indices.push(idx + offset as u16);
            k = k + 1;
            assert(self.indices@ =~= target.indices.take(old(self).indices@.len() + k));
        }
        assert(self.indices@ =~= target.indices);
        assert forall|j: int| 0 <= j < self@.indices.len() implies (#[trigger] self@.indices[j]) < self@.vertices.len() by {
            if j >= old(self).indices@.len() {
                assert(mesh@.indices[j - old(self).indices@.len()] < mesh@.vertices.len());
            }
        }
    }
}

/// What can be turned into a mesh by marching squares, with corners above
/// `cutoff` counted as "on" and edges cut by an edge profile.
pub trait Meshable {
    /// Whether `self` is small and well-formed enough to be meshed.
    spec fn can_mesh(&self) -> bool;

    /// The mesh of `self` under `cutoff` and the edge profile table `t`.
    spec fn mesh_view(&self, cutoff: u32, t: Seq<u32>) -> MeshView;

    fn to_mesh(&self, cutoff: u32, profile: &EdgeProfile) -> (r: Mesh)
        requires
            self.can_mesh(),
            profile.wf(),
        ensures
            r@ == self.mesh_view(cutoff, profile.table@),
            r@.wf(),
    ;
}
} // verus!
