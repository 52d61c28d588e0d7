pub mod game;
pub mod jps;
pub mod map;
pub mod score;
pub mod search;

pub use game::ClearEvent;
pub use game::CycleAlgorithmLeftEvent;
pub use game::CycleAlgorithmRightEvent;
pub use game::GameState;
pub use game::PathfindingAlgorithm;
pub use game::PathfindingAlgorithmChangedEvent;
pub use game::PathfindingAlgorithmSelectionChangedEvent;
pub use game::PlacementMode;
pub use game::ResetEvent;
pub use game::SolveEvent;
pub use game::StepEvent;
pub use game::change_pathfinding_algorithm_system;
pub use game::clear_system;
pub use game::cost_system;
pub use game::placement_system;
pub use game::reset_system;
pub use game::setup_game;
pub use game::solve_system;
pub use game::step_system;
pub use jps::Jps;
pub use map::GridMap;
pub use map::MapUpdatedEvent;
pub use map::Position;
pub use map::Successor;
pub use map::MAP_HEIGHT;
pub use map::MAP_WIDTH;
