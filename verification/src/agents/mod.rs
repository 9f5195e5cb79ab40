//! The agents that work on tickets, and what they make of the answers they get.
pub mod blueprinter;
pub mod executor;
pub mod judge;
pub mod surgeon;
pub mod ticket;
pub mod tools;

pub use blueprinter::BlueprinterAgent;
pub use executor::ExecutorAgent;
pub use judge::VerifierAgent;
pub use surgeon::SurgeonAgent;
pub use ticket::{Agent, Ticket, TicketStatus, TicketTokenUsage};
