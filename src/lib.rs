//! Control core of a model railroad: track geometry, the topology graph,
//! the interlocking state machines and the train controller.
pub mod geometry;
pub mod speed;
pub mod status;
pub mod messages;
pub mod switch;
pub mod sensor;
pub mod topology;
pub mod block;
pub mod signal;
pub mod train;
pub mod builder;
pub mod railroad;
pub mod timetable;
