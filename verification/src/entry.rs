use vstd::prelude::*;

verus! {

/// A manifest that holds a package.
pub struct Config {
    pub package: Package,
}

/// A package: its name, authors, keywords and metadata.
pub struct Package {
    pub name: String,
    pub authors: Vec<String>,
    pub keywords: Vec<String>,
    pub metadata: Metadata,
}

/// The metadata of a package: its gift orders (none when the manifest lists
/// none).
pub struct Metadata {
    pub orders: Vec<Order>,
}

/// One gift order: the item and, when the manifest gives a usable one, the
/// quantity.
pub struct Order {
    pub item: String,
    pub quantity: Option<u32>,
}

} // verus!
