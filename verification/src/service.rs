//! The node service as its callers see it.

use crate::json::Value;
use crate::node::{clone_optional, optional_json, optional_text};
use vstd::prelude::*;

verus! {

/// The node service.
///
/// An instance may be scoped to a client and to the run of a playbook rule; the events that it
/// emits carry both.
#[derive(Debug)]
pub struct NodeService {
    pub client_id: Option<String>,
    pub execution_context: Option<Value>,
}

impl NodeService {
    pub fn new() -> (r: NodeService)
        ensures
            optional_text(r.client_id) is None,
            optional_json(r.execution_context) is None,
    {
        NodeService { client_id: None, execution_context: None }
    }

    /// A service for one client: its events name the client as their source.
    pub fn with_client(&self, client_id: String) -> (r: NodeService)
        ensures
            optional_text(r.client_id) == Some(client_id@),
            optional_json(r.execution_context) == optional_json(self.execution_context),
    {
        NodeService {
            client_id: Some(client_id),
            execution_context: match &self.execution_context {
                Some(v) => Some(v.clone()),
                None => None,
            },
        }
    }

    /// A service for one run of a playbook rule: its events carry the context.
    pub fn with_execution_context(&self, context: Value) -> (r: NodeService)
        ensures
            optional_text(r.client_id) == optional_text(self.client_id),
            optional_json(r.execution_context) == Some(context@),
    {
        NodeService {
            client_id: clone_optional(&self.client_id),
            execution_context: Some(context),
        }
    }
}

} // verus!
