//! Scopes, the stack of open scopes, and the events that they send.
use crate::request::{AnnotatedLlmRequest, AnnotatedLlmResponse};
use crate::time::Timestamp;
use serde_json::Value;
use std::sync::Arc;
use vstd::prelude::*;

verus! {

/// What a scope stands for.
#[derive(Debug, Clone, Copy, PartialEq, Eq, Structural)]
pub enum ScopeType {
    /// An agent.
    Agent,
    /// A function.
    Function,
    /// A tool call.
    Tool,
    /// An LLM call.
    Llm,
    /// Anything else.
    Other,
}

/// Which end of a scope an event marks.
#[derive(Debug, Clone, Copy, PartialEq, Eq, Structural)]
pub enum ScopeCategory {
    /// The scope was opened.
    Start,
    /// The scope was closed.
    End,
}

/// An open scope.
#[derive(Debug)]
pub struct Scope {
    /// Name of the scope.
    pub name: String,
    /// What the scope stands for.
    pub scope_type: ScopeType,
    /// Identifier of the scope.
    pub uuid: u128,
    /// Identifier of the enclosing scope, when there is one.
    pub parent_uuid: Option<u128>,
    /// Metadata of the scope, when it has any.
    pub metadata: Option<Value>,
}

/// The open scopes of an execution tree, from the implicit root to the innermost.
#[derive(Debug)]
pub struct ScopeStack {
    /// The implicit root scope.
    pub root: Scope,
    /// The scopes opened inside it, outermost first.
    pub nested: Vec<Scope>,
}

impl ScopeStack {
    /// The open scopes, outermost first.
    pub open spec fn scopes(self) -> Seq<Scope> {
        seq![self.root] + self.nested@
    }

    /// The innermost scope.
    pub open spec fn innermost(self) -> Scope {
        if self.nested@.len() == 0 {
            self.root
        } else {
            self.nested@.last()
        }
    }

    /// Returns the innermost scope.
    pub fn top(&self) -> (r: &Scope)
        ensures
            *r == self.innermost(),
    {
        if self.nested.len() == 0 {
            &self.root
        } else {
            &self.nested[self.nested.len() - 1]
        }
    }

    /// Returns the identifier of the root scope.
    pub fn root_uuid(&self) -> (r: u128)
        ensures
            r == self.root.uuid,
    {
        self.root.uuid
    }
}

/// A telemetry event.
#[derive(Debug)]
pub struct Event {
    /// Identifier of the scope that the event is about.
    pub uuid: u128,
    /// Identifier of the enclosing scope, when there is one.
    pub parent_uuid: Option<u128>,
    /// Name of the scope.
    pub name: String,
    /// When the event happened.
    pub timestamp: Timestamp,
    /// Which end of a scope the event marks, when it marks one.
    pub scope_category: Option<ScopeCategory>,
    /// What the scope stands for, when the event is about one.
    pub scope_type: Option<ScopeType>,
    /// Category of the event, when it has one.
    pub category: Option<String>,
    /// Metadata of the scope, when it has any.
    pub metadata: Option<Value>,
    /// Correlation identifier of a tool call, when there is one.
    pub tool_call_id: Option<String>,
    /// Decoded request, when the event carries one.
    pub annotated_request: Option<Arc<AnnotatedLlmRequest>>,
    /// Decoded response, when the event carries one.
    pub annotated_response: Option<Arc<AnnotatedLlmResponse>>,
}

} // verus!
