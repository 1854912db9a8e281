//! Core types for point clouds and poses.
use vstd::prelude::*;

use crate::float::double::F64;
use crate::float::single::F32;

verus! {

/// 2D pose: position and heading.
#[derive(Clone, Copy, Debug)]
pub struct Pose {
    /// X position in meters
    pub x: F64,
    /// Y position in meters
    pub y: F64,
    /// Heading in radians (positive = counter-clockwise)
    pub theta: F64,
}

impl Default for Pose {
    /// The origin, facing along the x axis.
    fn default() -> (r: Pose)
        ensures
            r.x.bits == 0,
            r.y.bits == 0,
            r.theta.bits == 0,
    {
        let zero = F64::from_bits(0);
        Pose { x: zero, y: zero, theta: zero }
    }
}

/// A single 3D point from a LiDAR scan.
#[derive(Clone, Copy, Debug)]
pub struct Point3D {
    /// X coordinate in meters (forward)
    pub x: F32,
    /// Y coordinate in meters (left)
    pub y: F32,
    /// Z coordinate in meters (up)
    pub z: F32,
    /// Reflectivity (0-255)
    pub reflectivity: u8,
    /// Tag/classification
    pub tag: u8,
}

impl Default for Point3D {
    /// The sensor's own position.
    fn default() -> (r: Point3D)
        ensures
            r.x.bits == 0,
            r.y.bits == 0,
            r.z.bits == 0,
            r.reflectivity == 0,
            r.tag == 0,
    {
        let zero = F32::from_bits(0);
        Point3D { x: zero, y: zero, z: zero, reflectivity: 0, tag: 0 }
    }
}

impl Point3D {
    pub open spec fn spec_range_squared(self) -> F32 {
        self.x.times(self.x).plus(self.y.times(self.y)).plus(self.z.times(self.z))
    }

    /// The squared distance from the sensor, in single precision.
    #[verifier::when_used_as_spec(spec_range_squared)]
    pub fn range_squared(self) -> (r: F32)
        ensures
            r == self.range_squared(),
    {
        self.x.times(self.x).plus(self.y.times(self.y)).plus(self.z.times(self.z))
    }
}

/// A point cloud frame from a LiDAR sensor.
#[derive(Debug)]
pub struct PointCloud {
    /// Point cloud data
    pub points: Vec<Point3D>,
    /// Frame sequence number
    pub frame_id: u32,
}

impl Clone for PointCloud {
    fn clone(&self) -> (r: PointCloud)
        ensures
            r.points@ == self.points@,
            r.frame_id == self.frame_id,
    {
        let mut points: Vec<Point3D> = Vec::new();
        let mut i: usize = 0;
        while i < self.points.len()
            invariant
                i <= self.points.len(),
                points@ == self.points@.take(i as int),
            decreases self.points.len() - i,
        {
            points.push(self.points[i]);
            i = i + 1;
            assert(points@ =~= self.points@.take(i as int));
        }
        assert(points@ =~= self.points@);
        PointCloud { points, frame_id: self.frame_id }
    }
}

impl Default for PointCloud {
    /// A cloud without points.
    fn default() -> (r: PointCloud)
        ensures
            r.points@.len() == 0,
            r.frame_id == 0,
    {
        PointCloud { points: Vec::new(), frame_id: 0 }
    }
}

impl PointCloud {
    /// Create a new point cloud with the given points.
    pub fn new(points: Vec<Point3D>) -> (r: PointCloud)
        ensures
            r.points@ == points@,
            r.frame_id == 0,
    {
        PointCloud { points, frame_id: 0 }
    }

    /// Create an empty point cloud.
    pub fn empty() -> (r: PointCloud)
        ensures
            r.points@.len() == 0,
            r.frame_id == 0,
    {
        PointCloud { points: Vec::new(), frame_id: 0 }
    }

    /// Number of points in the cloud.
    pub fn len(&self) -> (r: usize)
        ensures
            r == self.points@.len(),
    {
        self.points.len()
    }

    /// Check if the cloud is empty.
    pub fn is_empty(&self) -> (r: bool)
        ensures
            r == (self.points@.len() == 0),
    {
        self.points.len() == 0
    }
}

} // verus!
