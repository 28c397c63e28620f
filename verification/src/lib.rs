//! The rules of an asteroid-mining game, free of any engine: voxel storage,
//! the asteroid field's hashes, streaming, meshing, mining, the economy, the
//! black-hole day, and the small state machines around them.
pub mod audio;
pub mod blast;
pub mod blocks;
pub mod body;
pub mod cells;
pub mod chunk;
pub mod day;
pub mod demo;
pub mod economy;
pub mod entities;
pub mod face;
pub mod field;
pub mod growth;
pub mod hash;
pub mod history;
pub mod horizon;
pub mod hud;
pub mod ivec;
pub mod lod;
pub mod mesh;
pub mod mining;
pub mod motion;
pub mod nearby;
pub mod player;
pub mod ray;
pub mod reset;
pub mod scene;
pub mod sim;
pub mod state;
pub mod storage;
pub mod stream;
pub mod text;
pub mod voxel_map;
pub mod world;
