//! Core simulation of a turn-based hex-grid strategy game: axial hex
//! arithmetic, spatial indices, army movement with pathfinding, multi-army
//! battle resolution with terrain modifiers, and a war/siege/occupation
//! state machine with AI peace-offer evaluation.

pub mod army;
pub mod battle;
pub mod hex;
pub mod movement;
pub mod province;
pub mod war;
pub mod world;
