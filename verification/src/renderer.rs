//! Triangle batching: staging triangles from drawables, tracking the box that
//! bounds them, and committing them to the frame's vertex and index lists.

use vstd::prelude::*;
use crate::color::Color;

verus! {

/// One corner of a triangle: a position, a colour, a texel of the atlas named
/// by `tex_idx`. Two vertices are the same when all fields are equal.
#[derive(Debug, Copy, Clone, PartialEq, Eq, Hash, Structural)]
pub struct Vertex {
    pub x: i32,
    pub y: i32,
    pub u: u32,
    pub v: u32,
    pub color: Color,
    pub tex_idx: u32,
}

impl Vertex {
    pub fn new(x: i32, y: i32, u: u32, v: u32, color: Color, tex_idx: u32) -> (vertex: Self)
        ensures
            vertex == (Vertex { x, y, u, v, color, tex_idx }),
    {
        Vertex { x, y, u, v, color, tex_idx }
    }
}

/// The number of vertices that a frame can hold: as many as a 16-bit index
/// can tell apart.
pub const MAX_VERTICES: usize = 0x1_0000;

/// The texture slot of a vertex that only has a colour.
pub const NO_TEXTURE: u32 = 0xFFFF_FFFF;

/// The texture slot of the image atlas.
pub const IMAGE_ATLAS: u32 = 0;

/// The texture slot of the glyph atlas.
pub const GLYPH_ATLAS: u32 = 1;

/// The two triangles of a rectangle with a corner at (`x0`, `y0`), where
/// the texture is at (`u0`, `v0`), and the opposite corner at (`x1`, `y1`),
/// where the texture is at (`u1`, `v1`).
pub open spec fn quad(
    x0: i32,
    y0: i32,
    x1: i32,
    y1: i32,
    u0: u32,
    v0: u32,
    u1: u32,
    v1: u32,
    color: Color,
    tex_idx: u32,
) -> Seq<Vertex> {
    seq![
        Vertex { x: x0, y: y0, u: u0, v: v0, color, tex_idx },
        Vertex { x: x1, y: y0, u: u1, v: v0, color, tex_idx },
        Vertex { x: x0, y: y1, u: u0, v: v1, color, tex_idx },
        Vertex { x: x1, y: y0, u: u1, v: v0, color, tex_idx },
        Vertex { x: x0, y: y1, u: u0, v: v1, color, tex_idx },
        Vertex { x: x1, y: y1, u: u1, v: v1, color, tex_idx },
    ]
}

/// An axis-aligned box, both corners included.
#[derive(Debug, Copy, Clone, PartialEq, Eq, Structural)]
pub struct Bounds {
    pub lower_x: i32,
    pub lower_y: i32,
    pub upper_x: i32,
    pub upper_y: i32,
}

/// `bounds` is the smallest box that holds the position of every vertex of
/// `staged`: nothing lies outside it, and each side touches a vertex.
pub open spec fn tightly_bounds(bounds: Bounds, staged: Seq<Vertex>) -> bool {
    &&& forall|i: int|
        0 <= i < staged.len() ==> bounds.lower_x <= (#[trigger] staged[i]).x <= bounds.upper_x
            && bounds.lower_y <= staged[i].y <= bounds.upper_y
    &&& exists|i: int| 0 <= i < staged.len() && (#[trigger] staged[i]).x == bounds.lower_x
    &&& exists|i: int| 0 <= i < staged.len() && (#[trigger] staged[i]).x == bounds.upper_x
    &&& exists|i: int| 0 <= i < staged.len() && (#[trigger] staged[i]).y == bounds.lower_y
    &&& exists|i: int| 0 <= i < staged.len() && (#[trigger] staged[i]).y == bounds.upper_y
}

/// The box of a batch: none while nothing is staged, the tight one after.
pub open spec fn is_bounding_box(bounds: Option<Bounds>, staged: Seq<Vertex>) -> bool {
    match bounds {
        None => staged.len() == 0,
        Some(b) => tightly_bounds(b, staged),
    }
}

/// The position of the first vertex equal to `vertex`, if there is one.
pub open spec fn first_index_of(vertices: Seq<Vertex>, vertex: Vertex) -> Option<int> {
    if vertices.contains(vertex) {
        Some(vertices.index_of_first(vertex).unwrap())
    } else {
        None
    }
}

/// What committing one vertex does to the vertex and index lists. With
/// `deduplicate`, a vertex that is already stored is referred to by its
/// existing index; otherwise it is stored at the end under a new index.
pub open spec fn commit_one(
    vertices: Seq<Vertex>,
    indices: Seq<u16>,
    vertex: Vertex,
    deduplicate: bool,
) -> (Seq<Vertex>, Seq<u16>) {
    if deduplicate && vertices.contains(vertex) {
        (vertices, indices.push(first_index_of(vertices, vertex).unwrap() as u16))
    } else {
        (vertices.push(vertex), indices.push(vertices.len() as u16))
    }
}

/// What committing `staged`, first vertex first, does to the two lists.
pub open spec fn commit(
    vertices: Seq<Vertex>,
    indices: Seq<u16>,
    staged: Seq<Vertex>,
    deduplicate: bool,
) -> (Seq<Vertex>, Seq<u16>)
    decreases staged.len(),
{
    if staged.len() == 0 {
        (vertices, indices)
    } else {
        let (vs, is) = commit(vertices, indices, staged.drop_last(), deduplicate);
        commit_one(vs, is, staged.last(), deduplicate)
    }
}

/// The vertices that an index list selects, in order: what is drawn.
pub open spec fn topology(vertices: Seq<Vertex>, indices: Seq<u16>) -> Seq<Vertex> {
    Seq::new(indices.len(), |k: int| vertices[indices[k] as int])
}

/// Every index points at a stored vertex.
pub open spec fn indices_in_range(vertices: Seq<Vertex>, indices: Seq<u16>) -> bool {
    forall|k: int| 0 <= k < indices.len() ==> 0 <= (#[trigger] indices[k]) < vertices.len()
}

/// The committed vertex and index lists of the frame being built.
#[derive(Debug)]
pub struct Renderer {
    vertices: Vec<Vertex>,
    indices: Vec<u16>,
    count: u32,
}

/// Triangles staged by drawables, not yet committed.
#[derive(Debug)]
pub struct RenderBatch {
    deduplicate: bool,
    vertices: Vec<Vertex>,
    bounds: Option<Bounds>,
}

impl RenderBatch {
    /// The staged vertices, three per triangle, in the order submitted.
    pub closed spec fn staged(&self) -> Seq<Vertex> {
        self.vertices@
    }

    /// Whether `finish` reuses stored vertices.
    pub closed spec fn deduplicating(&self) -> bool {
        self.deduplicate
    }

    /// The box recorded for the staged vertices.
    pub closed spec fn bounding_box(&self) -> Option<Bounds> {
        self.bounds
    }

    /// The recorded box is the bounding box of what is staged.
    pub open spec fn wf(&self) -> bool {
        is_bounding_box(self.bounding_box(), self.staged())
    }

    /// Stages a triangle, corners in the order given, and grows the box to
    /// hold them.
    pub fn triangle(&mut self, a: Vertex, b: Vertex, c: Vertex)
        requires
            old(self).wf(),
        ensures
            final(self).wf(),
            final(self).staged() == old(self).staged().push(a).push(b).push(c),
            final(self).deduplicating() == old(self).deduplicating(),
            final(self).bounding_box() is Some,
    {
        let ghost before = self.vertices@;
        let grown = match self.bounds {
            None => Bounds {
                lower_x: min3(a.x, b.x, c.x),
                lower_y: min3(a.y, b.y, c.y),
                upper_x: max3(a.x, b.x, c.x),
                upper_y: max3(a.y, b.y, c.y),
            },
            Some(box_so_far) => Bounds {
                lower_x: min2(min3(a.x, b.x, c.x), box_so_far.lower_x),
                lower_y: min2(min3(a.y, b.y, c.y), box_so_far.lower_y),
                upper_x: max2(max3(a.x, b.x, c.x), box_so_far.upper_x),
                upper_y: max2(max3(a.y, b.y, c.y), box_so_far.upper_y),
            },
        };
        self.vertices.push(a);
        self.vertices.push(b);
        self.vertices.push(c);
        self.bounds = Some(grown);
        proof {
            let after = self.vertices@;
            let n = before.len() as int;
            assert(after[n] == a && after[n + 1] == b && after[n + 2] == c);
            assert forall|i: int| 0 <= i < n implies after[i] == before[i] by {}
            match old(self).bounds {
                None => {},
                Some(box_so_far) => {
                    let lx = choose|i: int| 0 <= i < n && (#[trigger] before[i]).x == box_so_far.lower_x;
                    let ux = choose|i: int| 0 <= i < n && (#[trigger] before[i]).x == box_so_far.upper_x;
                    let ly = choose|i: int| 0 <= i < n && (#[trigger] before[i]).y == box_so_far.lower_y;
                    let uy = choose|i: int| 0 <= i < n && (#[trigger] before[i]).y == box_so_far.upper_y;
                    assert(after[lx].x == box_so_far.lower_x);
                    assert(after[ux].x == box_so_far.upper_x);
                    assert(after[ly].y == box_so_far.lower_y);
                    assert(after[uy].y == box_so_far.upper_y);
                },
            }
            assert(tightly_bounds(grown, after));
        }
    }

    /// Stages the two triangles of a rectangle.
    pub fn quad(
        &mut self,
        x0: i32,
        y0: i32,
        x1: i32,
        y1: i32,
        u0: u32,
        v0: u32,
        u1: u32,
        v1: u32,
        color: Color,
        tex_idx: u32,
    )
        requires
            old(self).wf(),
        ensures
            final(self).wf(),
            final(self).staged() == old(self).staged() + quad(
                x0,
                y0,
                x1,
                y1,
                u0,
                v0,
                u1,
                v1,
                color,
                tex_idx,
            ),
            final(self).deduplicating() == old(self).deduplicating(),
    {
        self.triangle(
            Vertex::new(x0, y0, u0, v0, color, tex_idx),
            Vertex::new(x1, y0, u1, v0, color, tex_idx),
            Vertex::new(x0, y1, u0, v1, color, tex_idx),
        );
        self.triangle(
            Vertex::new(x1, y0, u1, v0, color, tex_idx),
            Vertex::new(x0, y1, u0, v1, color, tex_idx),
            Vertex::new(x1, y1, u1, v1, color, tex_idx),
        );
        proof {
            assert(self.staged() =~= old(self).staged() + quad(
                x0,
                y0,
                x1,
                y1,
                u0,
                v0,
                u1,
                v1,
                color,
                tex_idx,
            ));
        }
    }

    /// The box that bounds everything staged so far: none before the first
    /// triangle.
    pub fn bounds(&self) -> (bounds: Option<Bounds>)
        ensures
            bounds == self.bounding_box(),
    {
        self.bounds
    }

    /// Whether `finish` reuses stored vertices.
    pub fn deduplicate(&self) -> (on: bool)
        ensures
            on == self.deduplicating(),
    {
        self.deduplicate
    }

    /// Switches the reuse of stored vertices on or off.
    pub fn set_deduplicate(&mut self, on: bool)
        ensures
            final(self).deduplicating() == on,
            final(self).staged() == old(self).staged(),
            final(self).bounding_box() == old(self).bounding_box(),
    {
        self.deduplicate = on;
    }

    /// The number of staged vertices.
    pub fn len(&self) -> (n: usize)
        ensures
            n == self.staged().len(),
    {
        self.vertices.len()
    }

    /// Commits every staged vertex to `renderer`, in order.
    pub fn finish(&self, renderer: &mut Renderer)
        requires
            old(renderer).wf(),
            old(renderer).vertices().len() + self.staged().len() <= MAX_VERTICES,
        ensures
            final(renderer).wf(),
            (final(renderer).vertices(), final(renderer).indices()) == commit(
                old(renderer).vertices(),
                old(renderer).indices(),
                self.staged(),
                self.deduplicating(),
            ),
    {
        let n = self.vertices.len();
        let mut k: usize = 0;
        while k < n
            invariant
                n == self.vertices@.len(),
                k <= n,
                renderer.wf(),
                old(renderer).vertices().len() + n <= MAX_VERTICES,
                renderer.vertices().len() <= old(renderer).vertices().len() + k,
                (renderer.vertices(), renderer.indices()) == commit(
                    old(renderer).vertices(),
                    old(renderer).indices(),
                    self.vertices@.take(k as int),
                    self.deduplicate,
                ),
            decreases n - k,
        {
            proof {
                assert(self.vertices@.take(k + 1).drop_last() == self.vertices@.take(k as int));
                assert(self.vertices@.take(k + 1).last() == self.vertices@[k as int]);
            }
            renderer.commit_vertex(self.vertices[k], self.deduplicate);
            k = k + 1;
        }
        proof {
            assert(self.vertices@.take(n as int) == self.vertices@);
        }
    }
}

impl Renderer {
    /// The stored vertices.
    pub closed spec fn vertices(&self) -> Seq<Vertex> {
        self.vertices@
    }

    /// The committed indices, one per committed vertex.
    pub closed spec fn indices(&self) -> Seq<u16> {
        self.indices@
    }

    /// The counter agrees with the vertex list and every index is in range.
    pub closed spec fn wf(&self) -> bool {
        &&& self.count == self.vertices@.len()
        &&& indices_in_range(self.vertices@, self.indices@)
    }

    pub fn new() -> (renderer: Self)
        ensures
            renderer.wf(),
            renderer.vertices() == Seq::<Vertex>::empty(),
            renderer.indices() == Seq::<u16>::empty(),
    {
        Renderer { vertices: Vec::new(), indices: Vec::new(), count: 0 }
    }

    /// Starts an empty batch.
    pub fn batch(&self, deduplicate: bool) -> (batch: RenderBatch)
        ensures
            batch.wf(),
            batch.staged() == Seq::<Vertex>::empty(),
            batch.bounding_box() is None,
            batch.deduplicating() == deduplicate,
    {
        RenderBatch { deduplicate, vertices: Vec::new(), bounds: None }
    }

    /// Forgets everything committed: the state at the start of a frame.
    pub fn clear(&mut self)
        ensures
            final(self).wf(),
            final(self).vertices() == Seq::<Vertex>::empty(),
            final(self).indices() == Seq::<u16>::empty(),
    {
        self.vertices.clear();
        self.indices.clear();
        self.count = 0;
    }

    /// The number of stored vertices.
    pub fn vertex_count(&self) -> (count: usize)
        ensures
            count == self.vertices().len(),
    {
        self.vertices.len()
    }

    /// The stored vertices, for upload.
    pub fn vertex_data(&self) -> (data: &Vec<Vertex>)
        ensures
            data@ == self.vertices(),
    {
        &self.vertices
    }

    /// The committed indices, for upload.
    pub fn index_data(&self) -> (data: &Vec<u16>)
        ensures
            data@ == self.indices(),
    {
        &self.indices
    }

    /// The position of the first stored vertex equal to `vertex`.
    fn position(&self, vertex: Vertex) -> (found: Option<usize>)
        ensures
            match found {
                Some(i) => i < self.vertices().len() && first_index_of(self.vertices(), vertex)
                    == Some(i as int),
                None => first_index_of(self.vertices(), vertex) is None,
            },
    {
        let n = self.vertices.len();
        let mut i: usize = 0;
        while i < n
            invariant
                n == self.vertices@.len(),
                i <= n,
                forall|j: int| 0 <= j < i ==> self.vertices@[j] != vertex,
            decreases n - i,
        {
            if self.vertices[i] == vertex {
                proof {
                    let s = self.vertices@;
                    assert(s.contains(vertex));
                    s.index_of_first_ensures(vertex);
                }
                return Some(i);
            }
            i = i + 1;
        }
        proof {
            assert(!self.vertices@.contains(vertex));
        }
        None
    }

    fn commit_vertex(&mut self, vertex: Vertex, deduplicate: bool)
        requires
            old(self).wf(),
            old(self).vertices().len() < MAX_VERTICES,
        ensures
            final(self).wf(),
            (final(self).vertices(), final(self).indices()) == commit_one(
                old(self).vertices(),
                old(self).indices(),
                vertex,
                deduplicate,
            ),
    {
        if deduplicate {
            if let Some(idx) = self.position(vertex) {
                self.indices.push(idx as u16);
                return ;
            }
        }
        self.vertices.push(vertex);
        self.indices.push(self.count as u16);
        self.count = self.count + 1;
    }
}

fn min2(a: i32, b: i32) -> (m: i32)
    ensures
        m <= a,
        m <= b,
        m == a || m == b,
{
    if a <= b {
        a
    } else {
        b
    }
}

fn max2(a: i32, b: i32) -> (m: i32)
    ensures
        m >= a,
        m >= b,
        m == a || m == b,
{
    if a >= b {
        a
    } else {
        b
    }
}

fn min3(a: i32, b: i32, c: i32) -> (m: i32)
    ensures
        m <= a,
        m <= b,
        m <= c,
        m == a || m == b || m == c,
{
    min2(min2(a, b), c)
}

fn max3(a: i32, b: i32, c: i32) -> (m: i32)
    ensures
        m >= a,
        m >= b,
        m >= c,
        m == a || m == b || m == c,
{
    max2(max2(a, b), c)
}

/// A list of vertices has at most one bounding box.
pub proof fn lemma_bounding_box_unique(first: Option<Bounds>, second: Option<Bounds>, staged: Seq<Vertex>)
    requires
        is_bounding_box(first, staged),
        is_bounding_box(second, staged),
    ensures
        first == second,
{
}

/// The bounding box depends on which vertices were staged, not on their
/// order: two lists with the same vertices, each as often, have the same box.
pub proof fn lemma_bounding_box_order_independent(
    first: Option<Bounds>,
    first_staged: Seq<Vertex>,
    second: Option<Bounds>,
    second_staged: Seq<Vertex>,
)
    requires
        is_bounding_box(first, first_staged),
        is_bounding_box(second, second_staged),
        first_staged.to_multiset() == second_staged.to_multiset(),
    ensures
        first == second,
{
    first_staged.to_multiset_ensures();
    second_staged.to_multiset_ensures();
    assert(first_staged.len() == second_staged.len());
    assert forall|i: int| 0 <= i < first_staged.len() implies second_staged.contains(
        #[trigger] first_staged[i],
    ) by {
        assert(first_staged.contains(first_staged[i]));
        assert(first_staged.to_multiset().count(first_staged[i]) > 0);
        assert(second_staged.to_multiset().count(first_staged[i]) > 0);
    }
    assert forall|i: int| 0 <= i < second_staged.len() implies first_staged.contains(
        #[trigger] second_staged[i],
    ) by {
        assert(second_staged.contains(second_staged[i]));
        assert(second_staged.to_multiset().count(second_staged[i]) > 0);
        assert(first_staged.to_multiset().count(second_staged[i]) > 0);
    }
    if first_staged.len() > 0 {
        let b = first->Some_0;
        assert(tightly_bounds(b, second_staged)) by {
            assert forall|i: int| 0 <= i < second_staged.len() implies b.lower_x <= (
            #[trigger] second_staged[i]).x <= b.upper_x && b.lower_y <= second_staged[i].y
                <= b.upper_y by {
                assert(first_staged.contains(second_staged[i]));
            }
            let lx = choose|i: int| 0 <= i < first_staged.len() && (#[trigger] first_staged[i]).x == b.lower_x;
            let ux = choose|i: int| 0 <= i < first_staged.len() && (#[trigger] first_staged[i]).x == b.upper_x;
            let ly = choose|i: int| 0 <= i < first_staged.len() && (#[trigger] first_staged[i]).y == b.lower_y;
            let uy = choose|i: int| 0 <= i < first_staged.len() && (#[trigger] first_staged[i]).y == b.upper_y;
            assert(second_staged.contains(first_staged[lx]));
            assert(second_staged.contains(first_staged[ux]));
            assert(second_staged.contains(first_staged[ly]));
            assert(second_staged.contains(first_staged[uy]));
        }
        lemma_bounding_box_unique(first, second, second_staged);
    }
}

/// Committing keeps what was stored and drawn, and draws the staged vertices
/// after it, whether or not stored vertices are reused: the index list
/// selects the earlier vertices followed by the staged ones.
pub proof fn lemma_commit_topology(
    vertices: Seq<Vertex>,
    indices: Seq<u16>,
    staged: Seq<Vertex>,
    deduplicate: bool,
)
    requires
        indices_in_range(vertices, indices),
        vertices.len() + staged.len() <= MAX_VERTICES,
    ensures
        ({
            let (vs, is) = commit(vertices, indices, staged, deduplicate);
            &&& indices_in_range(vs, is)
            &&& vertices.len() <= vs.len() <= vertices.len() + staged.len()
            &&& vs.take(vertices.len() as int) == vertices
            &&& is.len() == indices.len() + staged.len()
            &&& topology(vs, is) == topology(vertices, indices) + staged
        }),
    decreases staged.len(),
{
    if staged.len() > 0 {
        let rest = staged.drop_last();
        let v = staged.last();
        lemma_commit_topology(vertices, indices, rest, deduplicate);
        let (vs0, is0) = commit(vertices, indices, rest, deduplicate);
        let (vs, is) = commit(vertices, indices, staged, deduplicate);
        vs0.index_of_first_ensures(v);
        assert(vs.take(vertices.len() as int) == vertices) by {
            assert(vs.take(vertices.len() as int) =~= vs0.take(vertices.len() as int));
        }
        assert(topology(vs, is) =~= topology(vertices, indices) + staged) by {
            let t0 = topology(vs0, is0);
            assert(t0 == topology(vertices, indices) + rest);
            assert forall|k: int| 0 <= k < is.len() implies topology(vs, is)[k] == (topology(
                vertices,
                indices,
            ) + staged)[k] by {
                if k < is0.len() {
                    assert(is[k] == is0[k]);
                    assert(vs[is[k] as int] == vs0[is0[k] as int]);
                    assert(t0[k] == vs0[is0[k] as int]);
                    assert((topology(vertices, indices) + rest)[k] == (topology(vertices, indices)
                        + staged)[k]);
                } else {
                    assert(vs[is[k] as int] == v);
                }
            }
        }
    } else {
        assert(topology(vertices, indices) + staged =~= topology(vertices, indices));
        assert(vertices.take(vertices.len() as int) =~= vertices);
    }
}

/// With or without the reuse of stored vertices, the same triangles are
/// drawn.
pub proof fn lemma_deduplication_keeps_topology(
    vertices: Seq<Vertex>,
    indices: Seq<u16>,
    staged: Seq<Vertex>,
)
    requires
        indices_in_range(vertices, indices),
        vertices.len() + staged.len() <= MAX_VERTICES,
    ensures
        ({
            let (reused, reused_indices) = commit(vertices, indices, staged, true);
            let (plain, plain_indices) = commit(vertices, indices, staged, false);
            topology(reused, reused_indices) == topology(plain, plain_indices)
        }),
{
    lemma_commit_topology(vertices, indices, staged, true);
    lemma_commit_topology(vertices, indices, staged, false);
}

/// Without reuse every staged vertex is stored, in order.
pub proof fn lemma_commit_plain_stores_all(vertices: Seq<Vertex>, indices: Seq<u16>, staged: Seq<Vertex>)
    ensures
        commit(vertices, indices, staged, false).0 == vertices + staged,
    decreases staged.len(),
{
    if staged.len() > 0 {
        lemma_commit_plain_stores_all(vertices, indices, staged.drop_last());
        assert((vertices + staged.drop_last()).push(staged.last()) =~= vertices + staged);
    } else {
        assert(vertices + staged =~= vertices);
    }
}

/// With reuse, a store that held no vertex twice still holds none twice, and
/// holds exactly the vertices it held before together with the staged ones:
/// one stored vertex for each distinct vertex.
pub proof fn lemma_commit_reuse_stores_distinct(
    vertices: Seq<Vertex>,
    indices: Seq<u16>,
    staged: Seq<Vertex>,
)
    requires
        vertices.no_duplicates(),
    ensures
        ({
            let vs = commit(vertices, indices, staged, true).0;
            &&& vs.no_duplicates()
            &&& vs.to_set() == vertices.to_set().union(staged.to_set())
            &&& vs.len() == vertices.to_set().union(staged.to_set()).len()
        }),
    decreases staged.len(),
{
    let vs = commit(vertices, indices, staged, true).0;
    if staged.len() > 0 {
        let rest = staged.drop_last();
        let v = staged.last();
        lemma_commit_reuse_stores_distinct(vertices, indices, rest);
        let vs0 = commit(vertices, indices, rest, true).0;
        assert(vs.to_set() =~= vertices.to_set().union(staged.to_set())) by {
            assert forall|x: Vertex| vs.to_set().contains(x) <==> vertices.to_set().union(
                staged.to_set(),
            ).contains(x) by {
                if vs.contains(x) {
                    let i = choose|i: int| 0 <= i < vs.len() && vs[i] == x;
                    if i < vs0.len() {
                        assert(vs0.contains(x));
                        assert(vs0.to_set().contains(x));
                        if rest.to_set().contains(x) {
                            let j = choose|j: int| 0 <= j < rest.len() && rest[j] == x;
                            assert(staged[j] == x);
                        }
                    } else {
                        assert(x == v);
                        assert(staged[staged.len() - 1] == x);
                    }
                }
                if vertices.contains(x) {
                    assert(vs0.to_set().contains(x));
                    let i = choose|i: int| 0 <= i < vs0.len() && vs0[i] == x;
                    assert(vs[i] == x);
                }
                if staged.contains(x) {
                    let j = choose|j: int| 0 <= j < staged.len() && staged[j] == x;
                    if j < rest.len() {
                        assert(rest[j] == x);
                        assert(rest.to_set().contains(x));
                        assert(vs0.to_set().contains(x));
                        let i = choose|i: int| 0 <= i < vs0.len() && vs0[i] == x;
                        assert(vs[i] == x);
                    } else {
                        if vs0.contains(v) {
                        } else {
                            assert(vs[vs0.len() as int] == x);
                        }
                    }
                }
            }
        }
    } else {
        assert(vertices.to_set().union(staged.to_set()) =~= vertices.to_set());
    }
    vs.unique_seq_to_set();
}

/// Reuse never stores more, and stores strictly fewer vertices as soon as a
/// staged vertex occurs twice.
pub proof fn lemma_commit_reuse_saves_repeats(
    vertices: Seq<Vertex>,
    indices: Seq<u16>,
    staged: Seq<Vertex>,
    i: int,
    j: int,
)
    requires
        0 <= i < j < staged.len(),
        staged[i] == staged[j],
    ensures
        commit(vertices, indices, staged, true).0.len() < commit(
            vertices,
            indices,
            staged,
            false,
        ).0.len(),
    decreases staged.len(),
{
    lemma_commit_plain_stores_all(vertices, indices, staged);
    lemma_commit_plain_stores_all(vertices, indices, staged.drop_last());
    let rest = staged.drop_last();
    let vs0 = commit(vertices, indices, rest, true).0;
    if j < staged.len() - 1 {
        lemma_commit_reuse_saves_repeats(vertices, indices, rest, i, j);
    } else {
        lemma_commit_reuse_holds_staged(vertices, indices, rest, i);
        lemma_commit_reuse_never_more(vertices, indices, rest);
    }
}

/// With reuse, every staged vertex is in the store afterwards.
pub proof fn lemma_commit_reuse_holds_staged(
    vertices: Seq<Vertex>,
    indices: Seq<u16>,
    staged: Seq<Vertex>,
    i: int,
)
    requires
        0 <= i < staged.len(),
    ensures
        commit(vertices, indices, staged, true).0.contains(staged[i]),
    decreases staged.len(),
{
    let rest = staged.drop_last();
    let vs0 = commit(vertices, indices, rest, true).0;
    let vs = commit(vertices, indices, staged, true).0;
    if i < staged.len() - 1 {
        lemma_commit_reuse_holds_staged(vertices, indices, rest, i);
        let k = choose|k: int| 0 <= k < vs0.len() && vs0[k] == staged[i];
        assert(vs[k] == staged[i]);
    } else {
        if vs0.contains(staged[i]) {
        } else {
            assert(vs[vs0.len() as int] == staged[i]);
        }
    }
}

/// With reuse, no more vertices are stored than without.
pub proof fn lemma_commit_reuse_never_more(vertices: Seq<Vertex>, indices: Seq<u16>, staged: Seq<Vertex>)
    ensures
        commit(vertices, indices, staged, true).0.len() <= commit(
            vertices,
            indices,
            staged,
            false,
        ).0.len(),
    decreases staged.len(),
{
    if staged.len() > 0 {
        lemma_commit_reuse_never_more(vertices, indices, staged.drop_last());
    }
}

/// Two triangles that share one vertex, and no other, take one stored vertex
/// fewer with reuse than without: where exactly one pair of staged vertices
/// is equal and the store holds none of them yet, reuse saves exactly one.
pub proof fn lemma_one_shared_vertex_saves_one(
    vertices: Seq<Vertex>,
    indices: Seq<u16>,
    staged: Seq<Vertex>,
    i: int,
    j: int,
)
    requires
        vertices.no_duplicates(),
        forall|k: int| 0 <= k < staged.len() ==> !vertices.contains(#[trigger] staged[k]),
        0 <= i < j < staged.len(),
        staged[i] == staged[j],
        forall|a: int, b: int|
            0 <= a < b < staged.len() && staged[a] == staged[b] ==> a == i && b == j,
    ensures
        commit(vertices, indices, staged, true).0.len() + 1 == commit(
            vertices,
            indices,
            staged,
            false,
        ).0.len(),
{
    lemma_commit_plain_stores_all(vertices, indices, staged);
    lemma_commit_reuse_stores_distinct(vertices, indices, staged);
    let rest = staged.remove(j);
    assert(rest.no_duplicates()) by {
        assert forall|a: int, b: int| 0 <= a < rest.len() && 0 <= b < rest.len() && a != b implies rest[a]
            != rest[b] by {
            let original_a = if a < j {
                a
            } else {
                a + 1
            };
            let original_b = if b < j {
                b
            } else {
                b + 1
            };
            assert(rest[a] == staged[original_a] && rest[b] == staged[original_b]);
            if original_a < original_b {
                if staged[original_a] == staged[original_b] {
                    assert(original_b == j);
                }
            } else {
                if staged[original_b] == staged[original_a] {
                    assert(original_a == j);
                }
            }
        }
    }
    assert(rest.to_set() =~= staged.to_set()) by {
        assert forall|x: Vertex| rest.to_set().contains(x) <==> staged.to_set().contains(x) by {
            if rest.contains(x) {
                let a = choose|a: int| 0 <= a < rest.len() && rest[a] == x;
                let original = if a < j {
                    a
                } else {
                    a + 1
                };
                assert(staged[original] == x);
            }
            if staged.contains(x) {
                let b = choose|b: int| 0 <= b < staged.len() && staged[b] == x;
                if b < j {
                    assert(rest[b] == x);
                } else if b == j {
                    assert(rest[i] == x);
                } else {
                    assert(rest[b - 1] == x);
                }
            }
        }
    }
    rest.unique_seq_to_set();
    vertices.unique_seq_to_set();
    assert(vertices.to_set().disjoint(staged.to_set())) by {
        assert forall|x: Vertex| vertices.to_set().contains(x) implies !staged.to_set().contains(x) by {
            if staged.contains(x) {
                let b = choose|b: int| 0 <= b < staged.len() && staged[b] == x;
                assert(!vertices.contains(staged[b]));
            }
        }
    }
    vstd::seq_lib::seq_to_set_is_finite(vertices);
    vstd::seq_lib::seq_to_set_is_finite(staged);
    vstd::set_lib::lemma_set_disjoint_lens(vertices.to_set(), staged.to_set());
}

} // verus!
