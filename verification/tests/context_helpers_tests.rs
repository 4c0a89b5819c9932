use adaptive::context_helpers::{
    extract_graph_call_context, extract_scope_path, read_manual_latency_sensitivity,
    read_workflow_class, resolve_agent_id, resolve_root_scope_uuid,
    resolve_run_boundary_scope_uuid, resolve_shared_parent_scope_identity,
    set_latency_sensitivity, SharedParentScopeIdentity, WorkflowClass, LATENCY_SENSITIVITY_POINTER,
    RUN_BOUNDARY_POINTER, SCHEDULING_CLASS_POINTER, WORKFLOW_CLASS_POINTER,
};
use adaptive::scope::{Scope, ScopeStack, ScopeType};
use serde_json::Value;

fn object(entries: Vec<(&str, Value)>) -> Value {
    let mut map = serde_json::Map::new();
    for (key, value) in entries {
        map.insert(key.to_string(), value);
    }
    Value::Object(map)
}

fn text(s: &str) -> Value {
    Value::String(s.to_string())
}

fn scope(name: &str, scope_type: ScopeType, uuid: u128, metadata: Option<Value>) -> Scope {
    Scope {
        name: name.to_string(),
        scope_type,
        uuid,
        parent_uuid: None,
        metadata,
    }
}

fn stack(nested: Vec<Scope>) -> ScopeStack {
    ScopeStack {
        root: scope("root", ScopeType::Agent, 1, None),
        nested,
    }
}

fn adaptive_class(key: &str, class: &str) -> Value {
    object(vec![("nemo_flow_adaptive", object(vec![(key, text(class))]))])
}

#[test]
fn test_latency_sensitivity_pointer_is_valid_json_pointer() {
    assert!(LATENCY_SENSITIVITY_POINTER.starts_with('/'));
}

#[test]
fn test_set_latency_sensitivity_basic() {
    let mut stack = stack(vec![]);
    set_latency_sensitivity(Ok(&mut stack), 3).unwrap();
    assert_eq!(read_manual_latency_sensitivity(Some(&stack)), Some(3));
}

#[test]
fn test_set_latency_sensitivity_max_merge_higher_wins() {
    let mut stack = stack(vec![]);
    set_latency_sensitivity(Ok(&mut stack), 3).unwrap();
    set_latency_sensitivity(Ok(&mut stack), 5).unwrap();
    assert_eq!(read_manual_latency_sensitivity(Some(&stack)), Some(5));
}

#[test]
fn test_set_latency_sensitivity_max_merge_lower_noop() {
    let mut stack = stack(vec![]);
    set_latency_sensitivity(Ok(&mut stack), 5).unwrap();
    set_latency_sensitivity(Ok(&mut stack), 3).unwrap();
    assert_eq!(read_manual_latency_sensitivity(Some(&stack)), Some(5));
}

#[test]
fn test_set_latency_sensitivity_read_roundtrip() {
    let mut stack = stack(vec![]);
    set_latency_sensitivity(Ok(&mut stack), 7).unwrap();
    assert_eq!(read_manual_latency_sensitivity(Some(&stack)), Some(7));
}

#[test]
fn test_read_workflow_class_reads_nearest_scope_metadata() {
    let mut stack = stack(vec![]);
    stack.root.metadata = Some(adaptive_class("workflow_class", "standard"));
    assert_eq!(read_workflow_class(Some(&stack)), Some(WorkflowClass::Standard));

    stack.nested.push(scope(
        "branch",
        ScopeType::Function,
        2,
        Some(adaptive_class("scheduling_class", "background")),
    ));
    assert_eq!(read_workflow_class(Some(&stack)), Some(WorkflowClass::Background));
}

#[test]
fn test_extract_graph_call_context_reads_generic_scope_metadata() {
    let stack = stack(vec![
        scope(
            "research_graph",
            ScopeType::Agent,
            2,
            Some(object(vec![("nemo_flow.graph.scope", Value::Bool(true))])),
        ),
        scope(
            "researcher",
            ScopeType::Agent,
            3,
            Some(object(vec![
                ("nemo_flow.graph.node", Value::Bool(true)),
                ("nemo_flow.graph.node_name", text("researcher")),
                ("nemo_flow.graph.task_id", text("task-1")),
                (
                    "nemo_flow.graph.depends_on_task_ids",
                    Value::Array(vec![text("task-0")]),
                ),
            ])),
        ),
    ]);

    let context = extract_graph_call_context(Some(&stack)).unwrap();

    assert_eq!(context.graph_name.as_deref(), Some("research_graph"));
    assert_eq!(context.node_name, "researcher");
    assert_eq!(context.task_id, "task-1");
    assert_eq!(context.depends_on_task_ids, vec!["task-0"]);
}

#[test]
fn test_extract_graph_call_context_requires_task_id() {
    let stack = stack(vec![scope(
        "researcher",
        ScopeType::Agent,
        2,
        Some(object(vec![("nemo_flow.graph.node", Value::Bool(true))])),
    )]);

    assert!(extract_graph_call_context(Some(&stack)).is_none());
}

#[test]
fn test_helpers_return_defaults_when_scope_stack_lock_is_poisoned() {
    assert!(extract_scope_path(None).is_empty());
    assert_eq!(read_manual_latency_sensitivity(None), None);
    assert_eq!(read_workflow_class(None), None);
    assert!(extract_graph_call_context(None).is_none());
    assert_eq!(resolve_agent_id(None), None);
    assert_eq!(resolve_root_scope_uuid(None), None);
}

#[test]
fn test_resolve_root_scope_uuid_reads_current_stack_root() {
    let stack = stack(vec![scope("a", ScopeType::Agent, 5, None)]);
    let root_uuid = stack.root_uuid();

    assert_eq!(resolve_root_scope_uuid(Some(&stack)), Some(root_uuid));
}

fn no_boundary() -> Option<Value> {
    Some(object(vec![("nemo_flow.run_boundary", Value::Bool(false))]))
}

#[test]
fn test_resolve_run_boundary_scope_uuid_matches_active_agent_boundary() {
    let agent_uuid = 11;
    let stack = stack(vec![
        scope("aiq.chat", ScopeType::Agent, agent_uuid, None),
        scope("LangGraph", ScopeType::Agent, 12, no_boundary()),
        scope("researcher", ScopeType::Agent, 13, no_boundary()),
    ]);

    assert_eq!(resolve_root_scope_uuid(Some(&stack)), Some(stack.root_uuid()));
    assert_eq!(resolve_run_boundary_scope_uuid(Some(&stack)), Some(agent_uuid));
}

#[test]
fn test_resolve_run_boundary_scope_uuid_falls_back_to_stack_root() {
    let stack = stack(vec![scope("LangGraph", ScopeType::Agent, 12, no_boundary())]);

    assert_eq!(
        resolve_run_boundary_scope_uuid(Some(&stack)),
        Some(stack.root_uuid())
    );
}

#[test]
fn test_set_latency_sensitivity_ignores_non_object_metadata() {
    let mut stack = stack(vec![]);
    stack.root.metadata = Some(text("metadata"));

    set_latency_sensitivity(Ok(&mut stack), 9).unwrap();

    assert_eq!(stack.root.metadata, Some(text("metadata")));
}

#[test]
fn unreadable_stack_cannot_be_annotated() {
    let cause = std::sync::PoisonError::new(()).to_string();
    assert!(!cause.is_empty());
    assert_eq!(
        set_latency_sensitivity(Err(cause.clone()), 3),
        Err(format!("scope stack lock poisoned: {cause}"))
    );
    assert_eq!(
        set_latency_sensitivity(Err("busy".to_string()), 3),
        Err("scope stack lock poisoned: busy".to_string())
    );
}

#[test]
fn sensitivity_goes_to_the_innermost_scope_and_the_highest_is_read() {
    let mut stack = stack(vec![]);
    set_latency_sensitivity(Ok(&mut stack), 8).unwrap();
    stack.nested.push(scope("f", ScopeType::Function, 2, None));
    set_latency_sensitivity(Ok(&mut stack), 4).unwrap();
    assert_eq!(
        stack.nested[0].metadata.as_ref().unwrap().pointer(LATENCY_SENSITIVITY_POINTER),
        Some(&Value::from(4u32))
    );
    assert_eq!(read_manual_latency_sensitivity(Some(&stack)), Some(8));
}

#[test]
fn annotating_keeps_other_metadata() {
    let mut stack = stack(vec![]);
    stack.root.metadata = Some(object(vec![
        ("other", Value::Bool(true)),
        ("nemo_flow_adaptive", object(vec![("workflow_class", text("interactive"))])),
    ]));
    set_latency_sensitivity(Ok(&mut stack), 2).unwrap();
    let metadata = stack.root.metadata.as_ref().unwrap();
    assert_eq!(metadata.get("other"), Some(&Value::Bool(true)));
    assert_eq!(read_workflow_class(Some(&stack)), Some(WorkflowClass::Interactive));
    assert_eq!(read_manual_latency_sensitivity(Some(&stack)), Some(2));
}

#[test]
fn adaptive_metadata_that_is_no_object_is_left_alone() {
    let mut stack = stack(vec![]);
    stack.root.metadata = Some(object(vec![("nemo_flow_adaptive", text("odd"))]));
    set_latency_sensitivity(Ok(&mut stack), 2).unwrap();
    assert_eq!(
        stack.root.metadata,
        Some(object(vec![("nemo_flow_adaptive", text("odd"))]))
    );
    assert_eq!(read_manual_latency_sensitivity(Some(&stack)), None);
}

#[test]
fn sensitivities_that_are_no_whole_numbers_are_ignored() {
    let mut stack = stack(vec![]);
    for value in [text("3"), Value::from(-3), Value::from(2.5), Value::Null] {
        stack.root.metadata = Some(object(vec![(
            "nemo_flow_adaptive",
            object(vec![("latency_sensitivity", value)]),
        )]));
        assert_eq!(read_manual_latency_sensitivity(Some(&stack)), None);
    }
}

#[test]
fn workflow_classes_are_read_without_regard_to_case_and_blanks() {
    assert_eq!(WorkflowClass::parse(" Interactive "), Some(WorkflowClass::Interactive));
    assert_eq!(WorkflowClass::parse("STANDARD"), Some(WorkflowClass::Standard));
    assert_eq!(WorkflowClass::parse("background\n"), Some(WorkflowClass::Background));
    assert_eq!(WorkflowClass::parse("urgent"), None);
    assert_eq!(WorkflowClass::parse(""), None);
}

#[test]
fn new_class_key_comes_before_the_legacy_one() {
    let mut stack = stack(vec![]);
    stack.root.metadata = Some(object(vec![(
        "nemo_flow_adaptive",
        object(vec![
            ("workflow_class", text("interactive")),
            ("scheduling_class", text("background")),
        ]),
    )]));
    assert_eq!(read_workflow_class(Some(&stack)), Some(WorkflowClass::Interactive));
    assert_eq!(
        stack.root.metadata.as_ref().unwrap().pointer(WORKFLOW_CLASS_POINTER),
        Some(&text("interactive"))
    );
    assert_eq!(
        stack.root.metadata.as_ref().unwrap().pointer(SCHEDULING_CLASS_POINTER),
        Some(&text("background"))
    );
}

#[test]
fn scope_path_lists_agents_and_functions_below_the_root() {
    let stack = stack(vec![
        scope("agent", ScopeType::Agent, 2, None),
        scope("tool", ScopeType::Tool, 3, None),
        scope("step", ScopeType::Function, 4, None),
        scope("llm", ScopeType::Llm, 5, None),
        scope("x", ScopeType::Other, 6, None),
    ]);
    assert_eq!(extract_scope_path(Some(&stack)), vec!["agent", "step"]);
    assert_eq!(resolve_agent_id(Some(&stack)), Some("agent".to_string()));
    assert_eq!(stack.top().name, "x");
}

#[test]
fn agent_id_is_the_outermost_agent_and_never_the_root() {
    let inner = stack(vec![
        scope("f", ScopeType::Function, 2, None),
        scope("first", ScopeType::Agent, 3, None),
        scope("second", ScopeType::Agent, 4, None),
    ]);
    assert_eq!(resolve_agent_id(Some(&inner)), Some("first".to_string()));
    assert_eq!(resolve_agent_id(Some(&stack(vec![]))), None);
}

#[test]
fn only_agents_bound_a_run() {
    let declared = object(vec![("nemo_flow.run_boundary", Value::Bool(true))]);
    assert_eq!(declared.pointer(RUN_BOUNDARY_POINTER), Some(&Value::Bool(true)));
    let stack = stack(vec![
        scope("a", ScopeType::Agent, 2, None),
        scope("f", ScopeType::Function, 3, Some(declared)),
    ]);
    assert_eq!(resolve_run_boundary_scope_uuid(None), None);
    assert_eq!(resolve_run_boundary_scope_uuid(Some(&stack)), Some(2));
}

#[test]
fn siblings_share_their_parent() {
    assert_eq!(resolve_shared_parent_scope_identity(None), None);
    let mut nested = stack(vec![
        scope("a", ScopeType::Agent, 2, None),
        scope("f", ScopeType::Function, 3, None),
    ]);
    assert_eq!(
        resolve_shared_parent_scope_identity(Some(&nested)),
        Some(SharedParentScopeIdentity {
            root_uuid: 1,
            shared_parent_uuid: 1,
        })
    );
    nested.nested[1].parent_uuid = Some(2);
    assert_eq!(
        resolve_shared_parent_scope_identity(Some(&nested)),
        Some(SharedParentScopeIdentity {
            root_uuid: 1,
            shared_parent_uuid: 2,
        })
    );
}
