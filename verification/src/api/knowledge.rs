//! The plain knowledge listing.
use vstd::prelude::*;

verus! {

/// A knowledge base as the plain listing shows it.
#[derive(Debug, Clone)]
pub struct Knowledge {
    pub id: i32,
    pub user_id: String,
    pub name: String,
    pub description: String,
}

/// Paging and filters of the plain listing.
#[derive(Debug)]
pub struct ListQuery {
    pub limit: Option<i64>,
    pub offset: Option<i64>,
    pub user_id: Option<String>,
    pub name: Option<String>,
}

} // verus!
