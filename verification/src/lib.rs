//! Core data types and verified helpers for an offline Monte Carlo path
//! tracer: the Wavefront OBJ scanner that feeds triangle meshes into the
//! scene, the per-thread work splitting of the sampling budget, and the
//! small index/value types shared by the renderer.

pub mod bvh;
pub mod camera;
pub mod math;
pub mod obj_loader;
pub mod obj_mesh;
pub mod rect_geometry;
pub mod rendering;
pub mod size2i;
pub mod vec2;
pub mod vec3;

pub use bvh::build_nodes;
pub use bvh::BvhNode;
pub use bvh::CodedAabb;
pub use camera::CameraBuilderState;
pub use camera::Completed;
pub use camera::Initial;
pub use camera::WaitForOrientation;
pub use camera::WaitForPosition;
pub use math::clamp;
pub use math::minmax;
pub use obj_loader::LineType;
pub use obj_loader::Scanner;
pub use obj_loader::ScannerError;
pub use obj_loader::Vertex;
pub use obj_mesh::ObjLoader;
pub use obj_mesh::TriangleData;
pub use rect_geometry::RectPlane;
pub use rendering::split_work_tasks;
pub use rendering::RenderMode;
pub use size2i::Size2i;
pub use vec2::Vec2;
pub use vec3::Vec3;
