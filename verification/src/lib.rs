//! A model of the dining-philosophers coordination exercise: a ring of
//! mutually exclusive resources ("forks"), actors ("philosophers") that
//! each need their two adjacent forks at once to work, a non-blocking
//! acquisition policy that avoids deadlock, and a blocking policy kept as
//! a negative control that can reach a circular wait.

pub mod fork;
pub mod philosopher;
pub mod ring;
pub mod sim;

pub use philosopher::AcquireError;
pub use philosopher::BlockOutcome;
pub use philosopher::BlockingRun;
pub use philosopher::Event;
pub use philosopher::EventKind;
pub use philosopher::Philosopher;
pub use fork::Acquire;
pub use fork::ForkState;
pub use fork::Table;
pub use ring::left_index;
pub use ring::right_index;
pub use ring::build;
pub use ring::RingError;
pub use ring::Seat;
pub use sim::ActorState;
pub use sim::BlockingRound;
pub use sim::Phase;
pub use sim::Sim;
pub use sim::demonstrate_deadlock;
