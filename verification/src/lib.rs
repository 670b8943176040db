//! Exact triangle-mesh collision and distance engine.
//!
//! Models are immutable triangle meshes built through [`ModelBuilder`] and
//! frozen by [`ModelBuilder::build`].  Two placed models (each with a
//! [`Rotation`] and a translation) can be tested for overlap with [`collide`]
//! or for their minimum separation with [`distance`] / [`distance_points`].
//!
//! All arithmetic is exact: coordinates are integers, rotations are integer
//! matrices over a common denominator, and distances are reported as exact
//! rational squared distances.  Every query result is pinned down by a
//! mathematical specification and proved, including the conservative pruning
//! done by the bounding-volume hierarchy each model carries.

pub mod dist;
pub mod laws;
pub mod model;
pub mod queries;
pub mod ratio;
pub mod rot;
pub mod tri;
pub mod vec3;

pub use model::Model;
pub use model::ModelBuilder;
pub use queries::collide;
pub use queries::distance;
pub use queries::distance_points;
pub use queries::DistanceOptions;
pub use queries::DistancePoints;
pub use queries::RatPoint;
pub use ratio::Ratio;
pub use rot::Rotation;
pub use vec3::Vec3;
