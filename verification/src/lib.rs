pub mod analysis;
pub mod assoc;
pub mod converter;
pub mod core_value;
pub mod dynamic;
pub mod dynamic_value;
pub mod errors;
pub mod factories;
pub mod hashing;
pub mod ids;
pub mod manager;
pub mod model_actor;
pub mod iterators;
pub mod laws;
pub mod navigation;
pub mod number;
pub mod path;
pub mod sampling;
pub mod text;
pub mod traits;
pub mod value;
pub mod store;
