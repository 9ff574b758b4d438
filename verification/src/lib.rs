//! Telemetry of a rack inventory, and the bookkeeping of an HTTP server's connections.
//!
//! A snapshot of the inventory ([`endpoint`]) says which racks, components and NVLink domains there
//! are ([`snapshot`]). Each is a series with labels ([`series`]) that are kept in order ([`rows`]).
//! [`inventory`] publishes the latest snapshot through Prometheus collectors ([`gauges`],
//! [`publish`]), which find a series by a hash of its labels ([`keys`]), and stamps it with the
//! time of day ([`clock`]). [`server`] decides what an accept loop and its connections do next, and
//! counts the connections.
//!
//! What all this comes to is stated over what goes in and what comes out: of texts in [`numerals`],
//! of a snapshot in [`laws`], of what is shown once it is published in [`scrape`], and of the calls
//! in [`calls`].
pub mod calls;
pub mod clock;
pub mod endpoint;
pub mod gauges;
pub mod inventory;
pub mod keys;
pub mod laws;
pub mod numerals;
pub mod publish;
pub mod rows;
pub mod scrape;
pub mod series;
pub mod server;
pub mod sizes;
pub mod snapshot;
pub mod text;
