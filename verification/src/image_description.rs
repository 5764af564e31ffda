//! Stored image descriptions, kept so that indexes can be rebuilt without
//! calling the image service again.
use vstd::prelude::*;

verus! {

/// The description stored for one image of a file.
#[derive(Debug, Clone)]
pub struct ImageDescription {
    pub id: i64,
    pub file_id: i64,
    pub image_filename: String,
    pub description: String,
    pub raw_response: String,
    pub source: String,
    pub created_at: i64,
    pub updated_at: i64,
}

} // verus!
