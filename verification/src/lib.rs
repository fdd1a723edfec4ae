//! Alignment of point clouds by the iterative closest point method.
//!
//! The library holds what the method decides and computes; it is written against an
//! abstract number type (see [`scalar`]) and takes the linear algebra over whole clouds
//! and the search for nearest neighbours as functions from its caller.

pub mod alignment;
pub mod axes;
pub mod calls;
pub mod candidates;
pub mod cells;
pub mod determined;
pub mod exact;
pub mod extremes;
pub mod facing;
pub mod file_handler;
pub mod fits;
pub mod hypotheses;
pub mod icp;
pub mod images;
pub mod invariants;
pub mod iteration;
pub mod means;
pub mod morton;
pub mod operate_pcd;
pub mod order;
pub mod parts;
pub mod picture;
pub mod progress;
pub mod records;
pub mod registration;
pub mod reordering;
pub mod report;
pub mod rigidity;
pub mod rotations;
pub mod rows;
pub mod sampling;
pub mod scalar;
pub mod sort;
pub mod steps;
pub mod trajectory;
pub mod trials;
pub mod turning;
pub mod voxelization;
