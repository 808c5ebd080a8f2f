//! Keyword, optional, defaulted and variadic arguments for functions that take
//! their arguments by position.
//!
//! A function is declared once, each parameter with its name and, where it
//! has them, its markers and its default. `schema::Schema::build` validates
//! the declarations and gives the schema of the function. A call then comes
//! with arguments in any mix of unnamed values and `name = value` pairs, and
//! `bind::bind` works out, for this one call, what each parameter of the
//! schema receives: one entry for each parameter, in declaration order, fit
//! to be handed to the function by position.
//!
//! Values are of whatever type the caller works with. Neither the builder nor
//! the binder looks into a value; they hand on the values they were given.
//!
//! The contracts of both are stated over `schema::build_spec` and
//! `bind::bind_spec`, and `laws` holds what follows from these two for every
//! schema and every call.

pub mod bind;
pub mod laws;
pub mod least;
pub mod lemmas;
pub mod schema;
