use vstd::prelude::*;

verus! {

/// Clamps values into `min ..= max`.
#[derive(Debug, Clone)]
pub struct Clipper<T> {
    pub min: T,
    pub max: T,
}

pub fn for_i32(min: i32, max: i32) -> (r: Clipper<i32>)
    ensures
        r.min == min,
        r.max == max,
{
    Clipper::<i32> { min, max }
}

pub fn for_i16(min: i16, max: i16) -> (r: Clipper<i16>)
    ensures
        r.min == min,
        r.max == max,
{
    Clipper::<i16> { min, max }
}

impl Clipper<i32> {
    /// `min` below `min`, `max` above `max`, else the value itself.
    pub fn clip(&self, value: i32) -> (r: i32)
        ensures
            r == if value < self.min { self.min } else if self.max < value { self.max } else { value },
    {
        if value < self.min {
            self.min
        } else if self.max < value {
            self.max
        } else {
            value
        }
    }
}

impl Clipper<i16> {
    /// `min` below `min`, `max` above `max`, else the value itself.
    pub fn clip(&self, value: i16) -> (r: i16)
        ensures
            r == if value < self.min { self.min } else if self.max < value { self.max } else { value },
    {
        if value < self.min {
            self.min
        } else if self.max < value {
            self.max
        } else {
            value
        }
    }
}

} // verus!
