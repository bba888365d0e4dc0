//! Response bodies shared across API versions, and the observability DTOs.

use vstd::prelude::*;
use crate::json::JsonValue;

verus! {

/// A component's kind, as the API reports it.
#[derive(Debug, Clone, Copy, PartialEq, Eq, Structural)]
pub enum ComponentTypeDto {
    Source,
    Query,
    Reaction,
}

/// A component's lifecycle status, as the API reports it.
#[derive(Debug, Clone, Copy, PartialEq, Eq, Structural)]
pub enum ComponentStatusDto {
    Starting,
    Running,
    Stopping,
    Stopped,
    Error,
    Reconfiguring,
}

/// A log message's level, as the API reports it.
#[derive(Debug, Clone, Copy, PartialEq, Eq, Structural)]
pub enum LogLevelDto {
    Trace,
    Debug,
    Info,
    Warn,
    Error,
}

/// Links to a component's resources.
pub struct ComponentLinks {
    pub self_link: String,
    pub full: String,
}

/// A component in a list response.
pub struct ComponentListItem {
    pub id: String,
    pub status: ComponentStatusDto,
    pub error_message: Option<String>,
    pub links: ComponentLinks,
    pub config: Option<JsonValue>,
}

/// Links to an instance's resources.
pub struct InstanceLinks {
    pub self_link: String,
    pub sources: String,
    pub queries: String,
    pub reactions: String,
}

/// An instance in a list response.
pub struct InstanceListItem {
    pub id: String,
    pub source_count: usize,
    pub query_count: usize,
    pub reaction_count: usize,
    pub links: InstanceLinks,
}

/// The envelope of every API response: success with data, or failure with
/// a message.
pub struct ApiResponse<T> {
    pub success: bool,
    pub data: Option<T>,
    pub error: Option<String>,
}

/// A response that only carries a message.
pub struct StatusResponse {
    pub message: String,
}

/// The API versions the server offers and the current one.
pub struct ApiVersionsResponse {
    pub versions: Vec<String>,
    pub current: String,
}

impl<T> ApiResponse<T> {
    /// A successful response carrying `data`.
    pub fn success(data: T) -> (r: ApiResponse<T>)
        ensures
            r.success,
            r.data == Some(data),
            r.error is None,
    {
        ApiResponse { success: true, data: Some(data), error: None }
    }

    /// A failed response carrying `message`.
    pub fn error(message: String) -> (r: ApiResponse<T>)
        ensures
            !r.success,
            r.data is None,
            r.error == Some(message),
    {
        ApiResponse { success: false, data: None, error: Some(message) }
    }
}

} // verus!
