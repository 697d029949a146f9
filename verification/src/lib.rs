use vstd::prelude::*;

pub mod analyze;
pub mod chess_util;
pub mod engine;
pub mod games_list;
pub mod home;
pub mod library;
pub mod models;
pub mod playback;
pub mod review;
pub mod rules;
pub mod session;
pub mod stats;
pub mod sync;
pub mod text;
pub mod weekly_review;

verus! {
}
