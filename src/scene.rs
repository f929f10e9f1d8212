//! The scene graph that the disposer tears down: meshes with a geometry,
//! materials and children, and the lights of a scene.
use vstd::prelude::*;

verus! {

/// The vertex data of a mesh; releasing it is idempotent.
#[derive(Debug)]
pub struct Geometry {
    released: bool,
}

impl Geometry {
    /// Whether the geometry's resources have been released.
    pub closed spec fn is_released(&self) -> bool {
        self.released
    }

    /// A geometry that holds its resources.
    pub fn new() -> (r: Geometry)
        ensures
            !r.is_released(),
    {
        Geometry { released: false }
    }

    /// Releases the resources; releasing again changes nothing.
    pub fn dispose(&mut self)
        ensures
            final(self).is_released(),
    {
        self.released = true;
    }

    pub fn released(&self) -> (r: bool)
        ensures
            r == self.is_released(),
    {
        self.released
    }
}

/// The surface description of a mesh; releasing it is idempotent.
#[derive(Debug)]
pub struct Material {
    released: bool,
}

impl Material {
    /// Whether the material's resources have been released.
    pub closed spec fn is_released(&self) -> bool {
        self.released
    }

    /// A material that holds its resources.
    pub fn new() -> (r: Material)
        ensures
            !r.is_released(),
    {
        Material { released: false }
    }

    /// Releases the resources; releasing again changes nothing.
    pub fn dispose(&mut self)
        ensures
            final(self).is_released(),
    {
        self.released = true;
    }

    pub fn released(&self) -> (r: bool)
        ensures
            r == self.is_released(),
    {
        self.released
    }
}

/// A node of the scene graph with no content of its own.
#[derive(Debug, Clone, Copy, PartialEq, Eq, Structural)]
pub struct Object3d;

/// A node of the scene graph: an optional geometry, its materials, and the
/// meshes below it. A mesh owns its children, so detaching a node from its
/// parent is taking it out of the parent's list.
#[derive(Debug)]
pub struct Mesh {
    pub children: Vec<Mesh>,
    pub geometry: Option<Geometry>,
    pub material: Vec<Material>,
}

impl Mesh {
    /// A mesh with the given geometry and no materials or children.
    pub fn new(geometry: Option<Geometry>) -> (r: Mesh)
        ensures
            r.geometry == geometry,
            r.children@.len() == 0,
            r.material@.len() == 0,
    {
        Mesh { children: Vec::new(), geometry, material: Vec::new() }
    }

    /// Detaches the mesh from its parent. A mesh holds no link to its parent:
    /// the owner of the parent's child list takes it out, and the mesh itself
    /// stays as it is.
    pub fn remove_from_parent(&mut self)
        ensures
            *final(self) == *old(self),
    {
    }
}

/// The root of a scene graph.
#[derive(Debug)]
pub struct Scene {
    pub children: Vec<Mesh>,
}

impl Scene {
    /// An empty scene.
    pub fn new() -> (r: Scene)
        ensures
            r.children@.len() == 0,
    {
        Scene { children: Vec::new() }
    }
}

/// A directional light, aimed at its target.
#[derive(Debug)]
pub struct DirectionalLight {
    pub target: Mesh,
}

impl DirectionalLight {
    /// Detaches the light from its parent; as for a mesh, the owner of the
    /// list takes it out.
    pub fn remove_from_parent(&mut self)
        ensures
            *final(self) == *old(self),
    {
    }

    /// Releases the light; it holds no resources of its own.
    pub fn dispose(&mut self)
        ensures
            *final(self) == *old(self),
    {
    }
}

/// An ambient light.
#[derive(Debug, Clone, Copy, PartialEq, Eq, Structural)]
pub struct AmbientLight;

impl AmbientLight {
    /// Detaches the light from its parent; the owner of the list takes it out.
    pub fn remove_from_parent(&mut self)
        ensures
            *final(self) == *old(self),
    {
    }

    /// Releases the light; it holds no resources of its own.
    pub fn dispose(&mut self)
        ensures
            *final(self) == *old(self),
    {
    }
}

/// The geometries of a forest of meshes, in pre-order: for each mesh in
/// turn, its own geometry and then those below it.
pub open spec fn forest_geometries(ms: Seq<Mesh>) -> Seq<Geometry>
    decreases ms,
{
    if ms.len() == 0 {
        Seq::empty()
    } else {
        let m = ms.last();
        forest_geometries(ms.drop_last()) + own_geometry(m) + forest_geometries(m.children@)
    }
}

/// The materials of a forest of meshes, in pre-order: for each mesh in
/// turn, its own materials and then those below it.
pub open spec fn forest_materials(ms: Seq<Mesh>) -> Seq<Material>
    decreases ms,
{
    if ms.len() == 0 {
        Seq::empty()
    } else {
        let m = ms.last();
        forest_materials(ms.drop_last()) + m.material@ + forest_materials(m.children@)
    }
}

/// The materials that a teardown of `m` reaches: its own, and with
/// `recursive` those of every mesh below it.
pub open spec fn tree_materials(m: Mesh, recursive: bool) -> Seq<Material> {
    if recursive {
        m.material@ + forest_materials(m.children@)
    } else {
        m.material@
    }
}

/// The mesh's own geometry, as a sequence of none or one.
pub open spec fn own_geometry(m: Mesh) -> Seq<Geometry> {
    match m.geometry {
        Some(g) => seq![g],
        None => Seq::empty(),
    }
}

/// The geometries that a teardown of `m` reaches: its own, and with
/// `recursive` those of every mesh below it.
pub open spec fn tree_geometries(m: Mesh, recursive: bool) -> Seq<Geometry> {
    if recursive {
        own_geometry(m) + forest_geometries(m.children@)
    } else {
        own_geometry(m)
    }
}

} // verus!
