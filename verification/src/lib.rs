pub mod camera;
pub mod fixed;
pub mod hittable;
pub mod hittable_list;
pub mod interval;
pub mod ray;
pub mod sampler;
pub mod sphere;
pub mod vec3;
