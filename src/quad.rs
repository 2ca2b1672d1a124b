use vstd::prelude::*;

verus! {

/// One corner of a quad as the GPU reads it. Each number is the bit pattern
/// of a 32-bit float: `position` is x then y, `color` is red, green, blue.
#[derive(Clone, Copy, Debug)]
pub struct Vertex {
    pub position: [u32; 2],
    pub color: [u32; 3],
}

/// The four corners of the quad with the given bounds, counterclockwise from
/// the lower left.
pub open spec fn quad_vertices(min_x: u32, min_y: u32, max_x: u32, max_y: u32, color: [u32; 3]) -> Seq<Vertex> {
    seq![
        Vertex { position: [min_x, min_y], color },
        Vertex { position: [max_x, min_y], color },
        Vertex { position: [max_x, max_y], color },
        Vertex { position: [min_x, max_y], color },
    ]
}

/// The two triangles of the quad whose corners start at vertex `4 * q`.
pub open spec fn quad_indices(q: int) -> Seq<u32> {
    seq![
        (4 * q) as u32,
        (4 * q + 1) as u32,
        (4 * q + 2) as u32,
        (4 * q) as u32,
        (4 * q + 2) as u32,
        (4 * q + 3) as u32,
    ]
}

/// The most quads a builder holds: the count of indices must fit in a `u32`.
pub const MAX_QUADS: u32 = 715_827_882;

/// Collects the vertices and triangle indices of a list of quads.
pub struct QuadBufferBuilder {
    vertex_data: Vec<Vertex>,
    index_data: Vec<u32>,
    current_quad: u32,
}

impl QuadBufferBuilder {
    #[verifier::type_invariant]
    closed spec fn well_formed(&self) -> bool {
        &&& self.current_quad <= MAX_QUADS
        &&& self.vertex_data@.len() == 4 * self.current_quad
        &&& self.index_data@.len() == 6 * self.current_quad
    }

    /// The vertices pushed so far, four per quad.
    pub closed spec fn spec_vertices(&self) -> Seq<Vertex> {
        self.vertex_data@
    }

    /// The triangle indices pushed so far, six per quad.
    pub closed spec fn spec_indices(&self) -> Seq<u32> {
        self.index_data@
    }

    /// The number of quads pushed so far.
    pub closed spec fn spec_quads(&self) -> nat {
        self.current_quad as nat
    }

    /// A builder that holds no quad.
    pub fn new() -> (r: QuadBufferBuilder)
        ensures
            r.spec_vertices() == Seq::<Vertex>::empty(),
            r.spec_indices() == Seq::<u32>::empty(),
            r.spec_quads() == 0,
    {
        QuadBufferBuilder { vertex_data: Vec::new(), index_data: Vec::new(), current_quad: 0 }
    }

    /// Adds the quad with the given bounds and colour: its four corners, and
    /// the two triangles that cover it.
    pub fn push_quad(self, min_x: u32, min_y: u32, max_x: u32, max_y: u32, color: [u32; 3]) -> (r: QuadBufferBuilder)
        requires
            self.spec_quads() < MAX_QUADS,
        ensures
            r.spec_quads() == self.spec_quads() + 1,
            r.spec_vertices() == self.spec_vertices() + quad_vertices(min_x, min_y, max_x, max_y, color),
            r.spec_indices() == self.spec_indices() + quad_indices(self.spec_quads() as int),
    {
        proof {
            use_type_invariant(&self);
        }
        let QuadBufferBuilder { mut vertex_data, mut index_data, current_quad } = self;
        vertex_data.push(Vertex { position: [min_x, min_y], color });
        vertex_data.push(Vertex { position: [max_x, min_y], color });
        vertex_data.push(Vertex { position: [max_x, max_y], color });
        vertex_data.push(Vertex { position: [min_x, max_y], color });
        let base: u32 = current_quad * 4;
        index_data.push(base);
        index_data.push(base + 1);
        index_data.push(base + 2);
        index_data.push(base);
        index_data.push(base + 2);
        index_data.push(base + 3);
        let r = QuadBufferBuilder { vertex_data, index_data, current_quad: current_quad + 1 };
        assert(r.spec_vertices() =~= self.spec_vertices() + quad_vertices(min_x, min_y, max_x, max_y, color));
        assert(r.spec_indices() =~= self.spec_indices() + quad_indices(self.spec_quads() as int));
        r
    }

    /// The vertices, four per quad in the order pushed.
    pub fn vertex_data(&self) -> (r: &Vec<Vertex>)
        ensures
            r@ == self.spec_vertices(),
    {
        &self.vertex_data
    }

    /// The triangle indices, six per quad in the order pushed.
    pub fn index_data(&self) -> (r: &Vec<u32>)
        ensures
            r@ == self.spec_indices(),
    {
        &self.index_data
    }

    /// The number of triangle indices.
    pub fn num_indices(&self) -> (r: u32)
        ensures
            r == self.spec_indices().len(),
            r == 6 * self.spec_quads(),
    {
        proof {
            use_type_invariant(self);
        }
        self.current_quad * 6
    }
}

} // verus!
