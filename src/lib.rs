//! An interactive-fiction engine: pages read and write per-page state and
//! produce views, while a navigation runtime keeps a history of visited pages
//! organised into nested tunnels, and a simulator explores every reachable
//! combination of interactions.
//!
//! Pages are the author's code: the library decides what each response of a
//! page does to the game, and a driver invokes the pages in between (see
//! [`game::Game::begin_view`], [`game::Game::resolve`] and
//! [`sim::Simulator`]).

// identities, commands and errors
pub mod action;
pub mod errors;
pub mod page;

// state
pub mod game_state;
pub mod idmap;
pub mod page_state;
pub mod tags;

// views and text
pub mod elements;
pub mod mask;
pub mod text;
pub mod view;

// navigation, interaction and simulation
pub mod game;
pub mod interact;
pub mod sim;

// properties relating several operations
pub mod laws;
