//! The request-handling core of a small OpenID Connect identity provider.
use vstd::prelude::*;
use std::sync::{Arc, Mutex};
use crate::oidc::discovery::WellKnownConfig;

pub mod http;
pub mod log;
pub mod oidc;
pub mod text;
pub mod text_map;

verus! {

/// A connection to the SQLite database (`rusqlite::Connection`), carried through
/// unread.
#[verifier::external_type_specification]
#[verifier::external_body]
pub struct ExConnection(rusqlite::Connection);

/// A lock around a value (`std::sync::Mutex`), carried through unread.
#[verifier::external_type_specification]
#[verifier::external_body]
#[verifier::reject_recursive_types(T)]
pub struct ExMutex<T: ?Sized>(Mutex<T>);

/// What every request handler shares: the discovery metadata and the database.
pub struct AppState {
    well_known_config: WellKnownConfig,
    db: Arc<Mutex<rusqlite::Connection>>,
}

impl AppState {
    /// The shared state made of its parts.
    pub fn new(well_known_config: WellKnownConfig, db: Arc<Mutex<rusqlite::Connection>>) -> (r: Self)
        ensures
            r.well_known_config_view() == well_known_config@,
            r.db_view() == db,
    {
        AppState { well_known_config, db }
    }

    /// The discovery metadata.
    pub closed spec fn well_known_config_view(&self) -> crate::oidc::discovery::WellKnownConfigView {
        self.well_known_config@
    }

    /// The discovery metadata.
    pub fn well_known_config(&self) -> (r: &WellKnownConfig)
        ensures
            r@ == self.well_known_config_view(),
    {
        &self.well_known_config
    }

    /// The database handle.
    pub closed spec fn db_view(&self) -> Arc<Mutex<rusqlite::Connection>> {
        self.db
    }

    /// The database.
    pub fn db(&self) -> (r: &Arc<Mutex<rusqlite::Connection>>)
        ensures
            *r == self.db_view(),
    {
        &self.db
    }
}

} // verus!
