//! The expression tree and its leaves.

pub mod atom;
pub mod exp;

pub use atom::AtomView;
pub use atom::RujeAtom;
pub use exp::ExpView;
pub use exp::RujeExp;
