//! The store's plain record shapes that travel through the application
//! unchanged: tags and categories.
use vstd::prelude::*;

verus! {

/// A tag as the store returns it.
#[derive(Debug, PartialEq)]
pub struct Tag {
    pub id: i32,
    pub name: String,
}

/// A category as the store returns it.
#[derive(Debug, PartialEq)]
pub struct Category {
    pub id: i32,
    pub name: String,
    pub description: Option<String>,
}

} // verus!
