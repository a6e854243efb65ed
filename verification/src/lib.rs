//! A turn-based battle tracker for a live quiz between teams.
//!
//! Teams answer questions. An answer either adds damage to teams or tries to
//! smash the other teams, and every committed action is kept in a branching
//! history that can be walked back and forth.
//!
//! Damage is held in fixed-point units: [`team::DAMAGE_UNIT`] units are a
//! smash probability of one. Every draw that an action needs is handed in as
//! a plain integer, so every action is a function of its arguments; the
//! rolls of a smash can be drawn with [`dice::rolls`].

pub mod error;
pub mod team;
pub mod rule;
pub mod dice;
pub mod manager;
pub mod history;
pub mod session;

pub use error::Error;
pub use team::{TeamState, TeamModel, DAMAGE_UNIT};
pub use rule::{Damage, StockRule, Rule};
pub use dice::rolls;
pub use manager::GameManager;
pub use history::{Log, LogRecord, LogModel, RecordModel};
pub use session::{Actor, Event, Message, Session, SessionError};
