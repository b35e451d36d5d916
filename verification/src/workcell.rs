//! The persisted workcell document model: frames, models and mesh
//! constraints, each parented by ID.

use vstd::prelude::*;

use crate::ids::IdMap;
use crate::site::{Anchor, Pose};

verus! {

/// Where a model's asset comes from.
#[derive(Clone, Debug)]
pub enum AssetSource {
    Local(String),
    Remote(String),
    Search(String),
}

/// An anchor wrapped for a workcell hierarchy.
#[derive(Clone, Copy, Debug, PartialEq, Eq, Structural)]
pub struct Frame {
    pub anchor: Anchor,
}

impl AssetSource {
    /// An equal copy of the source.
    pub fn duplicate(&self) -> (r: AssetSource)
        ensures
            r == *self,
    {
        match self {
            AssetSource::Local(p) => AssetSource::Local(p.clone()),
            AssetSource::Remote(p) => AssetSource::Remote(p.clone()),
            AssetSource::Search(p) => AssetSource::Search(p.clone()),
        }
    }
}

/// A named, positioned external asset reference.
#[derive(Clone, Debug)]
pub struct Model {
    pub name: String,
    pub source: AssetSource,
    pub pose: Pose,
    pub is_static: bool,
}

impl Model {
    /// An equal copy of the model.
    pub fn duplicate(&self) -> (r: Model)
        ensures
            r == *self,
    {
        Model {
            name: self.name.clone(),
            source: self.source.duplicate(),
            pose: self.pose,
            is_static: self.is_static,
        }
    }
}

/// An attachment of an entity to a named element of a model, at a relative
/// pose. `T` is how the target model is referred to.
#[derive(Clone, Debug)]
pub struct MeshConstraint<T> {
    pub entity: T,
    pub element: String,
    pub relative_pose: Pose,
}

/// A document entry together with the ID of its parent entry, if the parent
/// carries an assigned ID of its own.
#[derive(Clone, Copy, Debug)]
pub struct Parented<T> {
    pub parent: Option<u32>,
    pub bundle: T,
}

/// The properties the root entity of a workcell must carry.
#[derive(Clone, Debug)]
pub struct WorkcellProperties {
    pub name: String,
}

impl WorkcellProperties {
    /// An equal copy of the properties.
    pub fn duplicate(&self) -> (r: WorkcellProperties)
        ensures
            r == *self,
    {
        WorkcellProperties { name: self.name.clone() }
    }
}

/// The root persisted workcell document: properties plus ID-keyed maps of
/// frames, models and mesh constraints.
pub struct Workcell {
    pub properties: WorkcellProperties,
    pub frames: IdMap<Parented<Frame>>,
    pub models: IdMap<Parented<Model>>,
    pub mesh_constraints: IdMap<MeshConstraint<u32>>,
}

/// Why building a workcell document from a live graph was aborted.
#[derive(Clone, Copy, Debug, PartialEq, Eq, Structural)]
pub enum WorkcellGenerationError {
    /// The save target does not refer to a workcell root.
    InvalidWorkcellEntity(usize),
    /// A mesh constraint of the named entity points at an entity that was
    /// not assigned an ID.
    BrokenConstraintReference(usize),
}

impl WorkcellGenerationError {
    /// A short description, for the application shell to present.
    pub fn message(&self) -> (r: &'static str)
        ensures
            r@ == self.message_spec(),
    {
        match self {
            WorkcellGenerationError::InvalidWorkcellEntity(_) => {
                "the specified entity does not refer to a workcell"
            },
            WorkcellGenerationError::BrokenConstraintReference(_) => {
                "a mesh constraint references an entity without an ID"
            },
        }
    }

    pub open spec fn message_spec(&self) -> Seq<char> {
        match self {
            WorkcellGenerationError::InvalidWorkcellEntity(_) => {
                "the specified entity does not refer to a workcell"@
            },
            WorkcellGenerationError::BrokenConstraintReference(_) => {
                "a mesh constraint references an entity without an ID"@
            },
        }
    }
}

} // verus!
