use vstd::prelude::*;
use crate::mesh::{Mesh, MeshView, Position, Vertex, MAX_VERTICES};

verus! {

/// Some vertex of `s` stands at `p`.
pub open spec fn has_position(s: Seq<Vertex>, p: Position) -> bool {
    exists|i: int| 0 <= i < s.len() && (#[trigger] s[i]).position == p
}

/// The index of a vertex of `s` at `p` (unique where positions are distinct).
pub open spec fn position_index(s: Seq<Vertex>, p: Position) -> int {
    choose|i: int| 0 <= i < s.len() && (#[trigger] s[i]).position == p
}

/// No two vertices of `s` stand at the same position.
pub open spec fn distinct_positions(s: Seq<Vertex>) -> bool {
    forall|i: int, j: int|
        0 <= i < s.len() && 0 <= j < s.len() && i != j ==> (#[trigger] s[i]).position != (#[trigger] s[j]).position
}

/// `acc` followed by each vertex of `vs`, in order, whose position is not
/// there yet.
pub open spec fn weld_vertices(acc: Seq<Vertex>, vs: Seq<Vertex>) -> Seq<Vertex>
    decreases vs.len(),
{
    if vs.len() == 0 {
        acc
    } else {
        let w = weld_vertices(acc, vs.drop_last());
        if has_position(w, vs.last().position) {
            w
        } else {
            w.push(vs.last())
        }
    }
}

/// `m` merged into `acc`: its vertices welded onto `acc`'s by position, and
/// each of its indices replaced by the index of the welded vertex at the
/// same position.
pub open spec fn weld(acc: MeshView, m: MeshView) -> MeshView {
    let vs = weld_vertices(acc.vertices, m.vertices);
    MeshView {
        vertices: vs,
        indices: acc.indices + m.indices.map_values(|k: u16| position_index(vs, m.vertices[k as int].position) as u16),
    }
}

/// Where positions are distinct, the index found for vertex `i`'s position
/// is `i`.
pub proof fn lemma_position_index(s: Seq<Vertex>, i: int)
    requires
        distinct_positions(s),
        0 <= i < s.len(),
    ensures
        position_index(s, s[i].position) == i,
{
    let p = s[i].position;
    assert(has_position(s, p));
    let j = position_index(s, p);
    assert(s[j].position == p);
}

/// Welding keeps `acc` as a prefix, keeps positions distinct, finds every
/// position of `vs`, adds at most `vs.len()` vertices, and adds only
/// vertices of `vs`.
pub proof fn lemma_weld_vertices(acc: Seq<Vertex>, vs: Seq<Vertex>)
    requires
        distinct_positions(acc),
    ensures
        distinct_positions(weld_vertices(acc, vs)),
        weld_vertices(acc, vs).len() >= acc.len(),
        weld_vertices(acc, vs).len() <= acc.len() + vs.len(),
        weld_vertices(acc, vs).subrange(0, acc.len() as int) == acc,
        forall|k: int| 0 <= k < vs.len() ==> has_position(weld_vertices(acc, vs), #[trigger] vs[k].position),
        forall|i: int|
            acc.len() <= i < weld_vertices(acc, vs).len() ==> exists|k: int|
                0 <= k < vs.len() && #[trigger] weld_vertices(acc, vs)[i] == vs[k],
    decreases vs.len(),
{
    if vs.len() > 0 {
        let prev = vs.drop_last();
        lemma_weld_vertices(acc, prev);
        let w = weld_vertices(acc, prev);
        let r = weld_vertices(acc, vs);
        assert forall|k: int| 0 <= k < vs.len() implies has_position(r, #[trigger] vs[k].position) by {
            if k < vs.len() - 1 {
                assert(prev[k] == vs[k]);
                let i = choose|i: int| 0 <= i < w.len() && (#[trigger] w[i]).position == vs[k].position;
                assert(r[i] == w[i]);
            } else if !has_position(w, vs.last().position) {
                assert(r[w.len() as int] == vs[k]);
            }
        }
        assert forall|i: int| acc.len() <= i < r.len() implies exists|k: int|
            0 <= k < vs.len() && #[trigger] r[i] == vs[k] by {
            if i < w.len() {
                let k = choose|k: int| 0 <= k < prev.len() && #[trigger] w[i] == prev[k];
                assert(r[i] == vs[k]);
            } else {
                assert(r[i] == vs[vs.len() - 1]);
            }
        }
        assert(r.subrange(0, acc.len() as int) =~= acc) by {
            assert(w.subrange(0, acc.len() as int) == acc);
        }
    } else {
        assert(acc.subrange(0, acc.len() as int) =~= acc);
    }
}

/// Welding a well-formed mesh into a well-formed mesh with distinct
/// positions gives a well-formed mesh with distinct positions, where the two
/// together fit 16-bit indices.
pub proof fn lemma_weld_wf(acc: MeshView, m: MeshView)
    requires
        acc.wf(),
        m.wf(),
        distinct_positions(acc.vertices),
        acc.vertices.len() + m.vertices.len() <= MAX_VERTICES,
    ensures
        weld(acc, m).wf(),
        distinct_positions(weld(acc, m).vertices),
        weld(acc, m).vertices.len() <= acc.vertices.len() + m.vertices.len(),
        weld(acc, m).vertices.subrange(0, acc.vertices.len() as int) == acc.vertices,
        forall|i: int|
            acc.vertices.len() <= i < weld(acc, m).vertices.len() ==> exists|k: int|
                0 <= k < m.vertices.len() && #[trigger] weld(acc, m).vertices[i] == m.vertices[k],
{
    lemma_weld_vertices(acc.vertices, m.vertices);
    let w = weld(acc, m);
    let vs = w.vertices;
    assert forall|q: int| 0 <= q < w.indices.len() implies (#[trigger] w.indices[q]) < vs.len() by {
        if q < acc.indices.len() {
            assert(w.indices[q] == acc.indices[q]);
        } else {
            let k = m.indices[q - acc.indices.len()];
            let p = m.vertices[k as int].position;
            assert(has_position(vs, p));
            let j = position_index(vs, p);
            assert(0 <= j < vs.len());
            assert(w.indices[q] == j as u16);
        }
    }
}

/// The index of the first vertex of `s` at `p`, if any.
pub fn find_position(s: &Vec<Vertex>, p: Position) -> (r: Option<usize>)
    ensures
        r.is_some() ==> r.unwrap() < s@.len() && s@[r.unwrap() as int].position == p,
        r.is_none() ==> !has_position(s@, p),
{
    let mut i: usize = 0;
    while i < s.len()
        invariant
            i <= s@.len(),
            forall|j: int| 0 <= j < i ==> (#[trigger] s@[j]).position != p,
        decreases s@.len() - i,
    {
        let q = s[i].position;
        if q.0 == p.0 && q.1 == p.1 && q.2 == p.2 {
            return Some(i);
        }
        i = i + 1;
    }
    None
}

/// Merges `sub` into `total` by position (see `weld`). The two together must
/// fit 16-bit indices.
pub fn weld_into(total: &mut Mesh, sub: &Mesh)
    requires
        old(total)@.wf(),
        distinct_positions(old(total).vertices@),
        sub@.wf(),
        old(total).vertices@.len() + sub.vertices@.len() <= MAX_VERTICES,
    ensures
        final(total)@ == weld(old(total)@, sub@),
        final(total)@.wf(),
        distinct_positions(final(total).vertices@),
{
    let ghost acc = total.vertices@;
    let mut index_map: Vec<u16> = Vec::new();
    let mut j: usize = 0;
    while j < sub.vertices.len()
        invariant
            acc == old(total).vertices@,
            distinct_positions(acc),
            total.indices@ == old(total).indices@,
            acc.len() + sub.vertices@.len() <= MAX_VERTICES,
            j <= sub.vertices@.len(),
            total.vertices@ == weld_vertices(acc, sub.vertices@.take(j as int)),
            distinct_positions(total.vertices@),
            total.vertices@.len() <= acc.len() + j,
            index_map@.len() == j,
            forall|q: int| 0 <= q < j ==> (#[trigger] index_map@[q]) < total.vertices@.len()
                && total.vertices@[index_map@[q] as int].position == sub.vertices@[q].position,
        decreases sub.vertices@.len() - j,
    {
        let v = sub.vertices[j];
        let ghost before = total.vertices@;
        proof {
            let t = sub.vertices@.take(j as int + 1);
            assert(t.drop_last() =~= sub.vertices@.take(j as int));
            assert(t.last() == v);
        }
        match find_position(&total.vertices, v.position) {
            Some(i) => {
                index_map.push(i as u16);
            },
            None => {
                index_map.push(total.vertices.len() as u16);
                total.vertices.push(v);
                assert forall|a: int, b: int|
                    0 <= a < total.vertices@.len() && 0 <= b < total.vertices@.len() && a != b implies
                    (#[trigger] total.vertices@[a]).position != (#[trigger] total.vertices@[b]).position by {
                    if a == before.len() {
                        assert(before[b] == total.vertices@[b]);
                    } else if b == before.len() {
                        assert(before[a] == total.vertices@[a]);
                    }
                }
            },
        }
        j = j + 1;
        assert forall|q: int| 0 <= q < j implies (#[trigger] index_map@[q]) < total.vertices@.len()
            && total.vertices@[index_map@[q] as int].position == sub.vertices@[q].position by {
            if q < j - 1 {
                assert(total.vertices@[index_map@[q] as int] == before[index_map@[q] as int]);
            }
        }
    }
    assert(sub.vertices@.take(j as int) =~= sub.vertices@);
    let ghost vs = total.vertices@;
    let ghost target = weld(old(total)@, sub@);
    let mut k: usize = 0;
    while k < sub.indices.len()
        invariant
            sub@.wf(),
            vs == total.vertices@,
            vs == weld_vertices(acc, sub.vertices@),
            acc == old(total).vertices@,
            target == weld(old(total)@, sub@),
            distinct_positions(vs),
            vs.len() <= MAX_VERTICES,
            index_map@.len() == sub.vertices@.len(),
            forall|q: int| 0 <= q < sub.vertices@.len() ==> (#[trigger] index_map@[q]) < vs.len()
                && vs[index_map@[q] as int].position == sub.vertices@[q].position,
            k <= sub.indices@.len(),
            total.indices@ == target.indices.take(old(total).indices@.len() + k),
        decreases sub.indices@.len() - k,
    {
        let idx = sub.indices[k];
        assert(sub@.indices[k as int] < sub@.vertices.len());
        let mapped = index_map[idx as usize];
        proof {
            lemma_position_index(vs, mapped as int);
            assert(vs[mapped as int].position == sub@.vertices[idx as int].position);
            assert(target.indices[old(total).indices@.len() + k] == position_index(
                vs,
                sub@.vertices[idx as int].position,
            ) as u16);
            assert(target.indices[old(total).indices@.len() + k] == mapped);
        }
        total.indices.push(mapped);
        k = k + 1;
        assert(total.indices@ =~= target.indices.take(old(total).indices@.len() + k));
    }
    assert(total.indices@ =~= target.indices);
    assert forall|q: int| 0 <= q < total@.indices.len() implies (#[trigger] total@.indices[q]) < total@.vertices.len() by {
        if q >= old(total).indices@.len() {
            let k = q - old(total).indices@.len();
            let idx = sub@.indices[k];
            assert(sub@.indices[k] < sub@.vertices.len());
            lemma_position_index(vs, index_map@[idx as int] as int);
            assert(total@.indices[q] == position_index(vs, sub@.vertices[idx as int].position) as u16);
        } else {
            assert(total@.indices[q] == old(total)@.indices[q]);
            assert(old(total)@.indices[q] < old(total)@.vertices.len());
            lemma_weld_vertices(acc, sub.vertices@);
        }
    }
}

} // verus!
