//! TigTag: a chase game on a maze of dots. The player eats the dots while four chasers
//! hunt it; in the title demo a program plays. This library holds the rules of the game:
//! the maze, its dots and their count, how the player, the demo player and the chasers
//! choose their ways, the judge of each frame, the countdowns, the pause and the records.

use vstd::prelude::*;

/// Positions and directions on the map.
pub mod grid;
/// What the demo player knows of the remaining dots.
pub mod demo_params;
/// The map of walls and dots.
pub mod map;
/// A measure that shrinks with every step of the search for risky walks.
pub mod search_measure;
/// The search for walks on which a chaser can meet the demo player.
pub mod auto_drive;
/// Building a new maze.
pub mod maze;
/// Numbers drawn at random.
pub mod random;
/// Scores, high scores and stages.
pub mod record;
/// The numbers in the header and the footer, as text.
pub mod header;
/// Preparing the map of a stage and counting its dots.
pub mod stage_map;
/// The states of the game.
pub mod state;
/// Eating dots, clearing a stage, and what the demo counts follow.
pub mod judge;
/// The player and its input.
pub mod player;
/// The chasers.
pub mod chasers;
/// How the demo player chooses its way at a crossing.
pub mod demo_choice;
/// The classic rules of moving on the grid.
pub mod classic;
/// Meetings of the player and the chasers between two frames.
pub mod collision;
/// The countdowns shown on the screen.
pub mod countdown;
/// The messages in the middle of the screen and their countdowns.
pub mod center;
/// The pause and its menu.
pub mod pause;
/// Keys that move the game on, and the animation of the sprites.
pub mod flow;

verus! {
} // verus!
