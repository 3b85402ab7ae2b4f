//! Data model of the image endpoints.

use vstd::prelude::*;

verus! {

/// One entry of an image listing.
#[allow(non_snake_case)]
#[derive(Debug)]
pub struct ImageCompactInfo {
    pub Id: String,
    pub ParentId: String,
    pub RepoTags: Vec<String>,
    pub RepoDigests: Option<Vec<String>>,
    pub Created: u64,
    pub Size: u64,
    pub VirtualSize: u64,
    pub SharedSize: i64,
    pub Labels: Option<std::collections::HashMap<String, String>>,
    pub Containers: i32,
}

} // verus!
