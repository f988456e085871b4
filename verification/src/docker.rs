//! The container images in which submitted programs run.

use vstd::prelude::*;

verus! {

/// The image that runs Java programs.
pub const JAVA_IMAGE: &'static str = "cimg/openjdk:17.0";

/// The image that runs Python programs.
pub const PYTHON_IMAGE: &'static str = "python:3-bullseye";

/// The image that builds and runs C++ programs.
pub const CPP_IMAGE: &'static str = "ghcr.io/clicepfl/s4s-2024-cpp:main";

/// The images that have to be at hand before a game starts.
pub fn required_images() -> (images: Vec<&'static str>)
    ensures
        images@.len() == 3,
        images@[0]@ == JAVA_IMAGE@,
        images@[1]@ == PYTHON_IMAGE@,
        images@[2]@ == CPP_IMAGE@,
{
    let mut images: Vec<&'static str> = Vec::new();
    images.push(JAVA_IMAGE);
    images.push(PYTHON_IMAGE);
    images.push(CPP_IMAGE);
    images
}

} // verus!
