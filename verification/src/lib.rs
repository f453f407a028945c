//! Modpack item and recipe library.
pub mod assoc;
pub mod fabric;
pub mod kubejs;
pub mod lang;
pub mod laws;
pub mod mod_loader;
pub mod model_resolver;
pub mod commands;
pub mod encoding;
pub mod recipe;
pub mod sorting;
pub mod text;
pub mod texture_renderer;
pub mod types;
pub mod vanilla_json;
