//! Pipeline configuration model and its validation.
use vstd::prelude::*;
use crate::error::{RagloomError, RagloomErrorKind};
use crate::text::{all_ws, is_blank, owned};

verus! {

/// Top-level pipeline configuration.
#[derive(Debug, Clone)]
pub struct PipelineConfig {
    pub source: SourceConfig,
    pub embed: EmbedConfig,
    pub sink: SinkConfig,
    pub state: StateConfig,
}

#[derive(Debug, Clone)]
pub struct SourceConfig {
    pub root: String,
}

#[derive(Debug, Clone)]
pub struct EmbedConfig {
    pub endpoint: String,
}

#[derive(Debug, Clone)]
pub struct SinkConfig {
    pub qdrant_url: String,
    pub collection: String,
}

#[derive(Debug, Clone)]
pub struct StateConfig {
    pub path: String,
}

/// The WAL location used when none is configured.
pub open spec fn default_state_path_spec() -> Seq<char> {
    ".ragloom/wal.ndjson"@
}

pub fn default_state_path() -> (p: String)
    ensures
        p@ == default_state_path_spec(),
{
    owned(".ragloom/wal.ndjson")
}

impl Default for StateConfig {
    fn default() -> (c: Self)
        ensures
            c.path@ == default_state_path_spec(),
    {
        StateConfig { path: default_state_path() }
    }
}

/// The first blank required field, in declaration order, with its message.
pub open spec fn config_problem(c: PipelineConfig) -> Option<Seq<char>> {
    if all_ws(c.source.root@) {
        Some("source.root is empty"@)
    } else if all_ws(c.embed.endpoint@) {
        Some("embed.endpoint is empty"@)
    } else if all_ws(c.sink.qdrant_url@) {
        Some("sink.qdrant_url is empty"@)
    } else if all_ws(c.sink.collection@) {
        Some("sink.collection is empty"@)
    } else if all_ws(c.state.path@) {
        Some("state.path is empty"@)
    } else {
        None
    }
}

fn config_error(msg: &str) -> (e: RagloomError)
    ensures
        e.kind == RagloomErrorKind::Config,
        e.contexts@.len() == 1,
        e.contexts@[0]@ == msg@,
{
    RagloomError::from_kind(RagloomErrorKind::Config).with_context(owned(msg))
}

impl PipelineConfig {
    /// Accepts a configuration whose required fields are all non-blank;
    /// otherwise reports the first blank one as a `Config` error.
    pub fn validate(&self) -> (r: Result<(), RagloomError>)
        ensures
            r is Ok <==> config_problem(*self) is None,
            r matches Err(e) ==> e.kind == RagloomErrorKind::Config && e.contexts@.len() == 1
                && Some(e.contexts@[0]@) == config_problem(*self),
    {
        if is_blank(self.source.root.as_str()) {
            return Err(config_error("source.root is empty"));
        }
        if is_blank(self.embed.endpoint.as_str()) {
            return Err(config_error("embed.endpoint is empty"));
        }
        if is_blank(self.sink.qdrant_url.as_str()) {
            return Err(config_error("sink.qdrant_url is empty"));
        }
        if is_blank(self.sink.collection.as_str()) {
            return Err(config_error("sink.collection is empty"));
        }
        if is_blank(self.state.path.as_str()) {
            return Err(config_error("state.path is empty"));
        }
        Ok(())
    }
}

/// A source of reload signals: it names the configuration file to reload.
pub trait ReloadSource: Send + Sync {
    fn config_path(&self) -> String;
}

} // verus!
