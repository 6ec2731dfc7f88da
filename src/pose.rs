use vstd::prelude::*;

verus! {

/// Number of keypoints in a body-tracking skeleton.
pub const KEYPOINT_COUNT: usize = 17;

/// A body-tracking skeleton: seventeen 2-D keypoints, stored as interleaved
/// `x, y` coordinates. The coordinate type is left to the caller.
#[derive(Clone, Copy)]
pub struct Pose<T>(pub [T; 34]);

impl<T: Copy> Pose<T> {
    pub const NOSE: usize = 0;
    pub const LEFT_EYE: usize = 1;
    pub const RIGHT_EYE: usize = 2;
    pub const LEFT_EAR: usize = 3;
    pub const RIGHT_EAR: usize = 4;
    pub const LEFT_SHOULDER: usize = 5;
    pub const RIGHT_SHOULDER: usize = 6;
    pub const LEFT_ELBOW: usize = 7;
    pub const RIGHT_ELBOW: usize = 8;
    pub const LEFT_WRIST: usize = 9;
    pub const RIGHT_WRIST: usize = 10;
    pub const LEFT_HIP: usize = 11;
    pub const RIGHT_HIP: usize = 12;
    pub const LEFT_KNEE: usize = 13;
    pub const RIGHT_KNEE: usize = 14;
    pub const LEFT_ANKLE: usize = 15;
    pub const RIGHT_ANKLE: usize = 16;

    /// The coordinates of keypoint `index`.
    pub open spec fn point(&self, index: int) -> (T, T) {
        (self.0@[2 * index], self.0@[2 * index + 1])
    }

    /// Builds a pose from its interleaved coordinates.
    pub fn new(data: [T; 34]) -> (r: Self)
        ensures
            r.0@ == data@,
    {
        Pose(data)
    }

    /// The coordinates of keypoint `index`, which must name one of the
    /// seventeen keypoints.
    pub fn keypoint(&self, index: usize) -> (r: (T, T))
        requires
            index < KEYPOINT_COUNT,
        ensures
            r == self.point(index as int),
    {
        (self.0[index * 2], self.0[index * 2 + 1])
    }

    pub fn nose(&self) -> (r: (T, T))
        ensures
            r == self.point(Self::NOSE as int),
    {
        self.keypoint(Self::NOSE)
    }

    pub fn left_eye(&self) -> (r: (T, T))
        ensures
            r == self.point(Self::LEFT_EYE as int),
    {
        self.keypoint(Self::LEFT_EYE)
    }

    pub fn right_eye(&self) -> (r: (T, T))
        ensures
            r == self.point(Self::RIGHT_EYE as int),
    {
        self.keypoint(Self::RIGHT_EYE)
    }

    pub fn left_ear(&self) -> (r: (T, T))
        ensures
            r == self.point(Self::LEFT_EAR as int),
    {
        self.keypoint(Self::LEFT_EAR)
    }

    pub fn right_ear(&self) -> (r: (T, T))
        ensures
            r == self.point(Self::RIGHT_EAR as int),
    {
        self.keypoint(Self::RIGHT_EAR)
    }

    pub fn left_shoulder(&self) -> (r: (T, T))
        ensures
            r == self.point(Self::LEFT_SHOULDER as int),
    {
        self.keypoint(Self::LEFT_SHOULDER)
    }

    pub fn right_shoulder(&self) -> (r: (T, T))
        ensures
            r == self.point(Self::RIGHT_SHOULDER as int),
    {
        self.keypoint(Self::RIGHT_SHOULDER)
    }

    pub fn left_elbow(&self) -> (r: (T, T))
        ensures
            r == self.point(Self::LEFT_ELBOW as int),
    {
        self.keypoint(Self::LEFT_ELBOW)
    }

    pub fn right_elbow(&self) -> (r: (T, T))
        ensures
            r == self.point(Self::RIGHT_ELBOW as int),
    {
        self.keypoint(Self::RIGHT_ELBOW)
    }

    pub fn left_wrist(&self) -> (r: (T, T))
        ensures
            r == self.point(Self::LEFT_WRIST as int),
    {
        self.keypoint(Self::LEFT_WRIST)
    }

    pub fn right_wrist(&self) -> (r: (T, T))
        ensures
            r == self.point(Self::RIGHT_WRIST as int),
    {
        self.keypoint(Self::RIGHT_WRIST)
    }

    pub fn left_hip(&self) -> (r: (T, T))
        ensures
            r == self.point(Self::LEFT_HIP as int),
    {
        self.keypoint(Self::LEFT_HIP)
    }

    pub fn right_hip(&self) -> (r: (T, T))
        ensures
            r == self.point(Self::RIGHT_HIP as int),
    {
        self.keypoint(Self::RIGHT_HIP)
    }

    pub fn left_knee(&self) -> (r: (T, T))
        ensures
            r == self.point(Self::LEFT_KNEE as int),
    {
        self.keypoint(Self::LEFT_KNEE)
    }

    pub fn right_knee(&self) -> (r: (T, T))
        ensures
            r == self.point(Self::RIGHT_KNEE as int),
    {
        self.keypoint(Self::RIGHT_KNEE)
    }

    pub fn left_ankle(&self) -> (r: (T, T))
        ensures
            r == self.point(Self::LEFT_ANKLE as int),
    {
        self.keypoint(Self::LEFT_ANKLE)
    }

    pub fn right_ankle(&self) -> (r: (T, T))
        ensures
            r == self.point(Self::RIGHT_ANKLE as int),
    {
        self.keypoint(Self::RIGHT_ANKLE)
    }
}

} // verus!
