//! Reinforcement-learning environment toolkit: deterministic seeding,
//! parameter spaces, a software canvas with PNG export, info maps, episode
//! step budgets and the seed rule of batched execution.

pub mod episode;
pub mod error;
pub mod frame;
pub mod info;
pub mod render;
pub mod render2d;
pub mod rng;
pub mod spaces;
pub mod vector;

pub use crate::episode::count_step;
pub use crate::error::GymError;
pub use crate::frame::RenderFrame;
pub use crate::info::Info;
pub use crate::render::{encode_pixels_png, encode_png};
pub use crate::render2d::{black, blue, gray, green, red, white, Canvas, Color};
pub use crate::rng::{rng_from_seed, split_n, RngStream, SeedSequence};
pub use crate::spaces::{BoxSpace, Discrete, MultiBinary, MultiDiscrete, NdarrayShapeError, Space};
pub use crate::vector::member_seeds;
