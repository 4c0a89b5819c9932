//! Context helpers for reading scope metadata on the intercept hot path.
//!
//! Each function reads a stack of open scopes; one that could not be read is passed as `None`.
//!
//! # Metadata Convention
//!
//! Manual latency sensitivity is stored in scope metadata under the JSON path
//! `/nemo_flow_adaptive/latency_sensitivity` as a positive integer.
//!
//! Workflow class is stored in scope metadata under `/nemo_flow_adaptive/workflow_class` or the
//! legacy `/nemo_flow_adaptive/scheduling_class` as `"interactive"`, `"standard"`, or
//! `"background"`.
use crate::json::{bool_of, json_at, json_bool, json_empty_object, json_get, json_get_mut, json_insert, json_number, json_object_mut, json_pointer, json_str, json_u64, json_view, member, number_of, plain_key, plain_path, pointer_of, text_of, JsonView};
use crate::model::{ascii_lower, to_ascii_lower};
use crate::records::GraphCallContext;
use crate::scope::{Scope, ScopeStack, ScopeType};
use crate::scope_metadata::{flag_of, node_name_of, scope_graph_metadata_from_value, word_of, words_of, GRAPH_DEPENDS_ON_TASK_IDS_KEY, GRAPH_NODE_KEY, GRAPH_SCOPE_KEY, GRAPH_TASK_ID_KEY};
use crate::text::{same_text, texts};
use serde_json::Value;
use vstd::prelude::*;

verus! {

/// Metadata key path for manual latency sensitivity annotation.
pub const LATENCY_SENSITIVITY_POINTER: &'static str = "/nemo_flow_adaptive/latency_sensitivity";

/// Metadata key path for workflow class annotation.
pub const WORKFLOW_CLASS_POINTER: &'static str = "/nemo_flow_adaptive/workflow_class";

/// Metadata key path for legacy workflow scheduling class annotation.
pub const SCHEDULING_CLASS_POINTER: &'static str = "/nemo_flow_adaptive/scheduling_class";

/// Metadata key path for adaptive run-boundary override.
pub const RUN_BOUNDARY_POINTER: &'static str = "/nemo_flow.run_boundary";

/// Metadata key of the adaptive annotations.
pub const ADAPTIVE_KEY: &'static str = "nemo_flow_adaptive";

/// Annotation key of the manual latency sensitivity.
pub const LATENCY_SENSITIVITY_KEY: &'static str = "latency_sensitivity";

/// Workflow-level scheduling class visible on the current scope stack.
#[derive(Debug, Clone, Copy, PartialEq, Eq, Structural)]
pub enum WorkflowClass {
    /// User-visible request expected to return quickly.
    Interactive,
    /// Ordinary workflow with no special latency class.
    Standard,
    /// Background workflow.
    Background,
}

/// Scheduling class of a workflow.
pub type SchedulingClass = WorkflowClass;

/// Whether a character is white space.
pub open spec fn whitespace(c: char) -> bool {
    ||| '\u{9}' <= c && c <= '\u{d}'
    ||| c == '\u{20}'
    ||| c == '\u{85}'
    ||| c == '\u{a0}'
    ||| c == '\u{1680}'
    ||| '\u{2000}' <= c && c <= '\u{200a}'
    ||| c == '\u{2028}'
    ||| c == '\u{2029}'
    ||| c == '\u{202f}'
    ||| c == '\u{205f}'
    ||| c == '\u{3000}'
}

/// A text without the white space at its start.
pub open spec fn start_trimmed(s: Seq<char>) -> Seq<char>
    decreases s.len(),
{
    if s.len() > 0 && whitespace(s[0]) {
        start_trimmed(s.drop_first())
    } else {
        s
    }
}

/// A text without the white space at its end.
pub open spec fn end_trimmed(s: Seq<char>) -> Seq<char>
    decreases s.len(),
{
    if s.len() > 0 && whitespace(s.last()) {
        end_trimmed(s.drop_last())
    } else {
        s
    }
}

/// A text without white space around it, its ASCII letters in lower case.
pub open spec fn normalized(s: Seq<char>) -> Seq<char> {
    end_trimmed(start_trimmed(s)).map_values(|c: char| ascii_lower(c))
}

/// The workflow class that a text names.
pub open spec fn class_named(s: Seq<char>) -> Option<WorkflowClass> {
    if normalized(s) == "interactive"@ {
        Some(WorkflowClass::Interactive)
    } else if normalized(s) == "standard"@ {
        Some(WorkflowClass::Standard)
    } else if normalized(s) == "background"@ {
        Some(WorkflowClass::Background)
    } else {
        None
    }
}

fn is_whitespace(c: char) -> (r: bool)
    ensures
        r == whitespace(c),
{
    ('\u{9}' <= c && c <= '\u{d}') || c == '\u{20}' || c == '\u{85}' || c == '\u{a0}' || c
        == '\u{1680}' || ('\u{2000}' <= c && c <= '\u{200a}') || c == '\u{2028}' || c == '\u{2029}'
        || c == '\u{202f}' || c == '\u{205f}' || c == '\u{3000}'
}

proof fn lemma_start_trimmed(s: Seq<char>, n: int)
    requires
        0 <= n <= s.len(),
        forall|i: int| 0 <= i < n ==> whitespace(#[trigger] s[i]),
        n < s.len() ==> !whitespace(s[n]),
    ensures
        start_trimmed(s) == s.skip(n),
    decreases n,
{
    if n == 0 {
        assert(s.skip(0) =~= s);
    } else {
        let rest = s.drop_first();
        assert forall|i: int| 0 <= i < n - 1 implies whitespace(#[trigger] rest[i]) by {
            assert(rest[i] == s[i + 1]);
        }
        assert(whitespace(s[0]));
        lemma_start_trimmed(rest, n - 1);
        assert(rest.skip(n - 1) =~= s.skip(n));
    }
}

proof fn lemma_end_trimmed(s: Seq<char>, n: int)
    requires
        0 <= n <= s.len(),
        forall|i: int| n <= i < s.len() ==> whitespace(#[trigger] s[i]),
        n > 0 ==> !whitespace(s[n - 1]),
    ensures
        end_trimmed(s) == s.take(n),
    decreases s.len() - n,
{
    if n == s.len() {
        assert(s.take(n) =~= s);
    } else {
        let rest = s.drop_last();
        assert(whitespace(s[s.len() - 1]));
        lemma_end_trimmed(rest, n);
        assert(rest.take(n) =~= s.take(n));
    }
}

/// Strips white space and lowers ASCII letters.
fn normalize(value: &str) -> (r: String)
    ensures
        r@ == normalized(value@),
{
    let mut chars: Vec<char> = Vec::new();
    for c in it: value.chars()
        invariant
            it.seq() == value@,
            chars@ == value@.take(it.index() as int),
    {
        chars.push(c);
    }
    assert(chars@ =~= value@);
    let mut start: usize = 0;
    while start < chars.len() && is_whitespace(chars[start])
        invariant
            start <= chars.len(),
            forall|i: int| 0 <= i < start ==> whitespace(#[trigger] chars@[i]),
        decreases chars.len() - start,
    {
        start += 1;
    }
    let mut end: usize = chars.len();
    while end > start && is_whitespace(chars[end - 1])
        invariant
            start <= end <= chars.len(),
            forall|i: int| end <= i < chars.len() ==> whitespace(#[trigger] chars@[i]),
        decreases end,
    {
        end -= 1;
    }
    proof {
        lemma_start_trimmed(chars@, start as int);
        let rest = chars@.skip(start as int);
        assert forall|i: int| end - start <= i < rest.len() implies whitespace(
            #[trigger] rest[i],
        ) by {
            assert(rest[i] == chars@[i + start]);
        }
        lemma_end_trimmed(rest, end - start);
        assert(rest.take(end - start) =~= chars@.subrange(start as int, end as int));
    }
    let mut out = String::new();
    let mut i: usize = start;
    while i < end
        invariant
            start <= i <= end <= chars.len(),
            out@ == chars@.subrange(start as int, i as int).map_values(|c: char| ascii_lower(c)),
        decreases end - i,
    {
        out.push(to_ascii_lower(chars[i]));
        proof {
            assert(out@ =~= chars@.subrange(start as int, i + 1).map_values(
                |c: char| ascii_lower(c),
            ));
        }
        i += 1;
    }
    out
}

impl WorkflowClass {
    /// Reads the workflow class that a text names.
    pub fn parse(value: &str) -> (r: Option<Self>)
        ensures
            r == class_named(value@),
    {
        let name = normalize(value);
        if same_text(name.as_str(), "interactive") {
            Some(WorkflowClass::Interactive)
        } else if same_text(name.as_str(), "standard") {
            Some(WorkflowClass::Standard)
        } else if same_text(name.as_str(), "background") {
            Some(WorkflowClass::Background)
        } else {
            None
        }
    }
}

/// Session-local scope identity used to coordinate warm-first cohorts.
#[derive(Debug, Clone, Copy, PartialEq, Eq, Structural)]
pub struct SharedParentScopeIdentity {
    /// UUID of the root scope for the current execution tree.
    pub root_uuid: u128,
    /// UUID of the parent scope shared by sibling fan-out work.
    pub shared_parent_uuid: u128,
}

/// The names of the agents and functions among scopes, in order.
pub open spec fn path_names(scopes: Seq<Scope>) -> Seq<Seq<char>>
    decreases scopes.len(),
{
    if scopes.len() == 0 {
        Seq::empty()
    } else {
        let earlier = path_names(scopes.drop_last());
        match scopes.last().scope_type {
            ScopeType::Agent | ScopeType::Function => earlier.push(scopes.last().name@),
            _ => earlier,
        }
    }
}

/// Extracts the current function call path from the scope stack.
///
/// Walks all scopes from root to top, skipping the root scope, and collects names of Agent and
/// Function scopes. This path is used for prediction trie lookup.
pub fn extract_scope_path(stack: Option<&ScopeStack>) -> (r: Vec<String>)
    ensures
        texts(r@) == match stack {
            Some(s) => path_names(s.nested@),
            None => Seq::empty(),
        },
{
    let mut out: Vec<String> = Vec::new();
    proof {
        assert(texts(out@) =~= Seq::<Seq<char>>::empty());
    }
    let stack = match stack {
        Some(stack) => stack,
        None => {
            return out;
        },
    };
    let mut i: usize = 0;
    while i < stack.nested.len()
        invariant
            i <= stack.nested.len(),
            texts(out@) == path_names(stack.nested@.take(i as int)),
        decreases stack.nested.len() - i,
    {
        let ghost before = out@;
        let scope = &stack.nested[i];
        proof {
            assert(stack.nested@.take(i + 1).drop_last() =~= stack.nested@.take(i as int));
            assert(stack.nested@.take(i + 1).last() == *scope);
        }
        match scope.scope_type {
            ScopeType::Agent | ScopeType::Function => {
                out.push(scope.name.clone());
                proof {
                    assert(texts(out@) =~= texts(before).push(scope.name@));
                }
            },
            _ => {},
        }
        i += 1;
    }
    proof {
        assert(stack.nested@.take(stack.nested.len() as int) =~= stack.nested@);
    }
    out
}

/// Whether a scope is a graph node with a task.
pub open spec fn names_task(scope: Scope) -> bool {
    &&& flag_of(scope.metadata, GRAPH_NODE_KEY@) == Some(true)
    &&& word_of(scope.metadata, GRAPH_TASK_ID_KEY@) is Some
}

/// Whether a scope is a graph.
pub open spec fn is_graph(scope: Scope) -> bool {
    flag_of(scope.metadata, GRAPH_SCOPE_KEY@) == Some(true)
}

/// Whether the scope at `k` is the innermost graph node with a task.
pub open spec fn task_scope(scopes: Seq<Scope>, k: int) -> bool {
    &&& 0 <= k < scopes.len()
    &&& names_task(scopes[k])
    &&& forall|j: int| k < j < scopes.len() ==> !names_task(#[trigger] scopes[j])
}

/// Whether the scope at `k` is the innermost graph.
pub open spec fn graph_scope(scopes: Seq<Scope>, k: int) -> bool {
    &&& 0 <= k < scopes.len()
    &&& is_graph(scopes[k])
    &&& forall|j: int| k < j < scopes.len() ==> !is_graph(#[trigger] scopes[j])
}

/// Whether `context` tells of the graph node at `k` and of the innermost graph.
pub open spec fn graph_context_at(
    scopes: Seq<Scope>,
    k: int,
    context: GraphCallContext,
) -> bool {
    let metadata = scopes[k].metadata;
    &&& task_scope(scopes, k)
    &&& Some(context.task_id@) == word_of(metadata, GRAPH_TASK_ID_KEY@)
    &&& Some(context.node_name@) == node_name_of(scopes[k].name@, metadata)
    &&& texts(context.depends_on_task_ids@) == words_of(metadata, GRAPH_DEPENDS_ON_TASK_IDS_KEY@)
    &&& match context.graph_name {
        Some(name) => exists|j: int| #[trigger] graph_scope(scopes, j) && name == scopes[j].name,
        None => forall|j: int| 0 <= j < scopes.len() ==> !is_graph(#[trigger] scopes[j]),
    }
}

fn scope_at<'a>(stack: &'a ScopeStack, i: usize) -> (r: &'a Scope)
    requires
        i <= stack.nested.len(),
    ensures
        *r == stack.scopes()[i as int],
{
    if i == 0 {
        &stack.root
    } else {
        &stack.nested[i - 1]
    }
}

/// Names the innermost graph.
fn innermost_graph_name(stack: &ScopeStack) -> (r: Option<String>)
    ensures
        match r {
            Some(name) => exists|j: int| #[trigger]
                graph_scope(stack.scopes(), j) && name == stack.scopes()[j].name,
            None => forall|j: int|
                0 <= j < stack.scopes().len() ==> !is_graph(#[trigger] stack.scopes()[j]),
        },
{
    let mut i: usize = stack.nested.len();
    loop
        invariant
            i <= stack.nested.len(),
            forall|j: int|
                i < j < stack.scopes().len() ==> !is_graph(#[trigger] stack.scopes()[j]),
        decreases i,
    {
        let scope = scope_at(stack, i);
        let graph = scope_graph_metadata_from_value(&scope.name, &scope.metadata);
        if graph.is_graph_scope {
            proof {
                assert(graph_scope(stack.scopes(), i as int));
            }
            return Some(scope.name.clone());
        }
        if i == 0 {
            return None;
        }
        i -= 1;
    }
}

/// Reads the graph context of a stack of scopes.
fn graph_call_context(stack: &ScopeStack) -> (r: Option<GraphCallContext>)
    ensures
        match r {
            Some(context) => exists|k: int| #[trigger]
                graph_context_at(stack.scopes(), k, context),
            None => forall|k: int|
                0 <= k < stack.scopes().len() ==> !names_task(#[trigger] stack.scopes()[k]),
        },
{
    let mut i: usize = stack.nested.len();
    loop
        invariant
            i <= stack.nested.len(),
            forall|j: int|
                i < j < stack.scopes().len() ==> !names_task(#[trigger] stack.scopes()[j]),
        decreases i,
    {
        let scope = scope_at(stack, i);
        let graph = scope_graph_metadata_from_value(&scope.name, &scope.metadata);
        if graph.is_graph_node {
            if let Some(task_id) = graph.task_id {
                if let Some(node_name) = graph.node_name {
                    let context = GraphCallContext {
                        graph_name: innermost_graph_name(stack),
                        node_name,
                        task_id,
                        depends_on_task_ids: graph.depends_on_task_ids,
                    };
                    proof {
                        assert(graph_context_at(stack.scopes(), i as int, context));
                    }
                    return Some(context);
                }
            }
        }
        if i == 0 {
            return None;
        }
        i -= 1;
    }
}

/// Extracts compact graph context for the current LLM call, when present.
///
/// This reads generic `nemo_flow.graph.*` scope metadata emitted by framework integrations. The
/// returned context matches completed-run call records: graph name is optional, while node name and
/// task id are required.
pub fn extract_graph_call_context(stack: Option<&ScopeStack>) -> (r: Option<GraphCallContext>)
    ensures
        match (stack, r) {
            (Some(s), Some(context)) => exists|k: int| #[trigger]
                graph_context_at(s.scopes(), k, context),
            (Some(s), None) => forall|k: int|
                0 <= k < s.scopes().len() ==> !names_task(#[trigger] s.scopes()[k]),
            (None, context) => context is None,
        },
{
    match stack {
        Some(stack) => graph_call_context(stack),
        None => None,
    }
}

/// The low 32 bits of a number.
pub open spec fn low_bits(n: u64) -> u32 {
    (n % 0x1_0000_0000) as u32
}

/// Keeps the low 32 bits of a number.
pub fn truncate(n: u64) -> (r: u32)
    ensures
        r == low_bits(n),
{
    (n % 0x1_0000_0000) as u32
}

/// The path of the manual latency sensitivity.
pub open spec fn sensitivity_path() -> Seq<Seq<char>> {
    seq![ADAPTIVE_KEY@, LATENCY_SENSITIVITY_KEY@]
}

/// The value under a path of metadata keys.
pub open spec fn meta_at(metadata: Option<Value>, keys: Seq<Seq<char>>) -> Option<Value> {
    match metadata {
        Some(value) => json_at(value, keys),
        None => None,
    }
}

/// The manual latency sensitivity in metadata.
pub open spec fn sensitivity_of(metadata: Option<Value>) -> Option<u32> {
    match meta_at(metadata, sensitivity_path()) {
        Some(value) => match number_of(value) {
            Some(n) => Some(low_bits(n)),
            None => None,
        },
        None => None,
    }
}

/// The larger of two numbers that may be missing.
pub open spec fn higher(a: Option<u32>, b: Option<u32>) -> Option<u32> {
    match (a, b) {
        (Some(x), Some(y)) => Some(
            if x >= y {
                x
            } else {
                y
            },
        ),
        (Some(x), None) => Some(x),
        (None, y) => y,
    }
}

/// The largest manual latency sensitivity in the metadata of scopes.
pub open spec fn highest_sensitivity(scopes: Seq<Scope>) -> Option<u32>
    decreases scopes.len(),
{
    if scopes.len() == 0 {
        None
    } else {
        higher(
            highest_sensitivity(scopes.drop_last()),
            sensitivity_of(scopes.last().metadata),
        )
    }
}

proof fn lemma_pointer_of_one(key: Seq<char>)
    ensures
        pointer_of(seq![key]) == seq!['/'] + key,
{
    reveal_with_fuel(pointer_of, 2);
    assert(seq![key].drop_last() =~= Seq::<Seq<char>>::empty());
    assert(pointer_of(seq![key]) =~= seq!['/'] + key);
}

proof fn lemma_pointer_of_two(first: Seq<char>, second: Seq<char>)
    ensures
        pointer_of(seq![first, second]) == seq!['/'] + first + seq!['/'] + second,
{
    lemma_pointer_of_one(first);
    assert(seq![first, second].drop_last() =~= seq![first]);
    assert(pointer_of(seq![first, second]) =~= seq!['/'] + first + seq!['/'] + second);
}

/// The pointer of the manual latency sensitivity names its path.
proof fn lemma_sensitivity_pointer()
    ensures
        pointer_of(sensitivity_path()) == LATENCY_SENSITIVITY_POINTER@,
        plain_path(sensitivity_path()),
{
    reveal_strlit("nemo_flow_adaptive");
    reveal_strlit("latency_sensitivity");
    reveal_strlit("/nemo_flow_adaptive/latency_sensitivity");
    lemma_pointer_of_two(ADAPTIVE_KEY@, LATENCY_SENSITIVITY_KEY@);
    assert(pointer_of(sensitivity_path()) =~= LATENCY_SENSITIVITY_POINTER@);
    assert(plain_key(ADAPTIVE_KEY@));
    assert(plain_key(LATENCY_SENSITIVITY_KEY@));
}

fn read_sensitivity(metadata: &Option<Value>) -> (r: Option<u32>)
    ensures
        r == sensitivity_of(*metadata),
{
    proof {
        lemma_sensitivity_pointer();
    }
    match metadata {
        Some(value) => match json_pointer(value, LATENCY_SENSITIVITY_POINTER) {
            Some(found) => match json_u64(found) {
                Some(n) => Some(truncate(n)),
                None => None,
            },
            None => None,
        },
        None => None,
    }
}

fn larger_of(a: Option<u32>, b: Option<u32>) -> (r: Option<u32>)
    ensures
        r == higher(a, b),
{
    match (a, b) {
        (Some(x), Some(y)) => Some(
            if x >= y {
                x
            } else {
                y
            },
        ),
        (Some(x), None) => Some(x),
        (None, y) => y,
    }
}

/// Reads the maximum manual latency sensitivity from all scopes in the scope stack.
///
/// Walks all scopes and checks metadata for `/nemo_flow_adaptive/latency_sensitivity`. Uses max-merge
/// semantics: if multiple scopes have annotations, the highest wins.
pub fn read_manual_latency_sensitivity(stack: Option<&ScopeStack>) -> (r: Option<u32>)
    ensures
        r == match stack {
            Some(s) => highest_sensitivity(s.scopes()),
            None => None,
        },
{
    let stack = match stack {
        Some(stack) => stack,
        None => {
            return None;
        },
    };
    let ghost scopes = stack.scopes();
    let mut max_val = larger_of(None, read_sensitivity(&stack.root.metadata));
    proof {
        assert(scopes.take(1).drop_last() =~= Seq::<Scope>::empty());
        assert(scopes.take(1).last() == stack.root);
        reveal_with_fuel(highest_sensitivity, 2);
    }
    let mut i: usize = 0;
    while i < stack.nested.len()
        invariant
            scopes == stack.scopes(),
            i <= stack.nested.len(),
            max_val == highest_sensitivity(scopes.take(i + 1)),
        decreases stack.nested.len() - i,
    {
        proof {
            assert(scopes.take(i + 2).drop_last() =~= scopes.take(i + 1));
            assert(scopes.take(i + 2).last() == stack.nested@[i as int]);
        }
        max_val = larger_of(max_val, read_sensitivity(&stack.nested[i].metadata));
        i += 1;
    }
    proof {
        assert(scopes.take(scopes.len() as int) =~= scopes);
    }
    max_val
}

/// The path of the workflow class.
pub open spec fn workflow_class_path() -> Seq<Seq<char>> {
    seq![ADAPTIVE_KEY@, "workflow_class"@]
}

/// The legacy path of the workflow class.
pub open spec fn scheduling_class_path() -> Seq<Seq<char>> {
    seq![ADAPTIVE_KEY@, "scheduling_class"@]
}

/// The workflow class in metadata: what stands under its path counts, else what stands under the
/// legacy one.
pub open spec fn class_of(metadata: Option<Value>) -> Option<WorkflowClass> {
    let value = match meta_at(metadata, workflow_class_path()) {
        Some(value) => Some(value),
        None => meta_at(metadata, scheduling_class_path()),
    };
    match value {
        Some(value) => match text_of(value) {
            Some(text) => class_named(text),
            None => None,
        },
        None => None,
    }
}

/// The workflow class of the innermost scope that has one.
pub open spec fn nearest_class(scopes: Seq<Scope>) -> Option<WorkflowClass>
    decreases scopes.len(),
{
    if scopes.len() == 0 {
        None
    } else {
        match class_of(scopes.last().metadata) {
            Some(class) => Some(class),
            None => nearest_class(scopes.drop_last()),
        }
    }
}

proof fn lemma_class_pointers()
    ensures
        pointer_of(workflow_class_path()) == WORKFLOW_CLASS_POINTER@,
        plain_path(workflow_class_path()),
        pointer_of(scheduling_class_path()) == SCHEDULING_CLASS_POINTER@,
        plain_path(scheduling_class_path()),
{
    reveal_strlit("nemo_flow_adaptive");
    reveal_strlit("workflow_class");
    reveal_strlit("scheduling_class");
    reveal_strlit("/nemo_flow_adaptive/workflow_class");
    reveal_strlit("/nemo_flow_adaptive/scheduling_class");
    lemma_pointer_of_two(ADAPTIVE_KEY@, "workflow_class"@);
    lemma_pointer_of_two(ADAPTIVE_KEY@, "scheduling_class"@);
    assert(pointer_of(workflow_class_path()) =~= WORKFLOW_CLASS_POINTER@);
    assert(pointer_of(scheduling_class_path()) =~= SCHEDULING_CLASS_POINTER@);
    assert(plain_key(ADAPTIVE_KEY@));
    assert(plain_key("workflow_class"@));
    assert(plain_key("scheduling_class"@));
}

fn read_class(metadata: &Option<Value>) -> (r: Option<WorkflowClass>)
    ensures
        r == class_of(*metadata),
{
    proof {
        lemma_class_pointers();
    }
    let meta = match metadata {
        Some(meta) => meta,
        None => {
            return None;
        },
    };
    let value = match json_pointer(meta, WORKFLOW_CLASS_POINTER) {
        Some(value) => Some(value),
        None => json_pointer(meta, SCHEDULING_CLASS_POINTER),
    };
    match value {
        Some(value) => match json_str(value) {
            Some(text) => WorkflowClass::parse(text),
            None => None,
        },
        None => None,
    }
}

/// Reads the nearest workflow class from visible scope metadata.
///
/// The deepest scope wins, which lets a workflow mark a nested branch as background or interactive
/// without changing the root workflow metadata.
pub fn read_workflow_class(stack: Option<&ScopeStack>) -> (r: Option<WorkflowClass>)
    ensures
        r == match stack {
            Some(s) => nearest_class(s.scopes()),
            None => None,
        },
{
    let stack = match stack {
        Some(stack) => stack,
        None => {
            return None;
        },
    };
    let ghost scopes = stack.scopes();
    let mut workflow_class = read_class(&stack.root.metadata);
    proof {
        assert(scopes.take(1).drop_last() =~= Seq::<Scope>::empty());
        assert(scopes.take(1).last() == stack.root);
        reveal_with_fuel(nearest_class, 2);
    }
    let mut i: usize = 0;
    while i < stack.nested.len()
        invariant
            scopes == stack.scopes(),
            i <= stack.nested.len(),
            workflow_class == nearest_class(scopes.take(i + 1)),
        decreases stack.nested.len() - i,
    {
        proof {
            assert(scopes.take(i + 2).drop_last() =~= scopes.take(i + 1));
            assert(scopes.take(i + 2).last() == stack.nested@[i as int]);
        }
        let parsed = read_class(&stack.nested[i].metadata);
        if parsed.is_some() {
            workflow_class = parsed;
        }
        i += 1;
    }
    proof {
        assert(scopes.take(scopes.len() as int) =~= scopes);
    }
    workflow_class
}

/// The entries of metadata, none when there is no metadata.
pub open spec fn metadata_entries(metadata: Option<Value>) -> Map<Seq<char>, Value> {
    match metadata {
        Some(value) => match json_view(value) {
            JsonView::Object(entries) => entries,
            _ => Map::empty(),
        },
        None => Map::empty(),
    }
}

/// The adaptive annotations in metadata.
pub open spec fn annotations(metadata: Option<Value>) -> Map<Seq<char>, Value> {
    let entries = metadata_entries(metadata);
    if entries.contains_key(ADAPTIVE_KEY@) {
        match json_view(entries[ADAPTIVE_KEY@]) {
            JsonView::Object(notes) => notes,
            _ => Map::empty(),
        }
    } else {
        Map::empty()
    }
}

/// Whether metadata has room for adaptive annotations: there is none, or it is an object in which
/// nothing but an object stands in their place.
pub open spec fn takes_annotations(metadata: Option<Value>) -> bool {
    match metadata {
        Some(value) => match json_view(value) {
            JsonView::Object(entries) => entries.contains_key(ADAPTIVE_KEY@) ==> json_view(
                entries[ADAPTIVE_KEY@],
            ) is Object,
            _ => false,
        },
        None => true,
    }
}

/// Whether metadata already holds a latency sensitivity of at least `value`.
pub open spec fn already_sensitive(metadata: Option<Value>, value: u32) -> bool {
    sensitivity_of(metadata) matches Some(previous) && previous >= value
}

/// Metadata one level deep.
pub open spec fn metadata_view(metadata: Option<Value>) -> Option<JsonView> {
    match metadata {
        Some(value) => Some(json_view(value)),
        None => None,
    }
}

/// Whether `after` is `before` with `value` for the latency sensitivity.
pub open spec fn sensitivity_written(
    before: Option<Value>,
    after: Option<Value>,
    value: u32,
) -> bool {
    let entries = metadata_entries(after);
    let notes = annotations(after);
    &&& metadata_view(after) == Some(JsonView::Object(entries))
    &&& entries == metadata_entries(before).insert(ADAPTIVE_KEY@, entries[ADAPTIVE_KEY@])
    &&& json_view(entries[ADAPTIVE_KEY@]) == JsonView::Object(notes)
    &&& notes == annotations(before).insert(
        LATENCY_SENSITIVITY_KEY@,
        notes[LATENCY_SENSITIVITY_KEY@],
    )
    &&& number_of(notes[LATENCY_SENSITIVITY_KEY@]) == Some(value as u64)
}

/// Whether `after` is `before` with the latency sensitivity raised to `value`: unless it is that
/// high already, or there is no room for it.
pub open spec fn sensitivity_raised(
    before: Option<Value>,
    after: Option<Value>,
    value: u32,
) -> bool {
    if already_sensitive(before, value) {
        after == before
    } else if !takes_annotations(before) {
        metadata_view(after) == metadata_view(before) && (metadata_view(before) matches Some(
            JsonView::Object(_),
        ) || after == before)
    } else {
        sensitivity_written(before, after, value)
    }
}

/// Raises the latency sensitivity in metadata.
fn raise_sensitivity(metadata: &mut Option<Value>, value: u32)
    ensures
        sensitivity_raised(*old(metadata), *final(metadata), value),
{
    if let Some(previous) = read_sensitivity(metadata) {
        if previous >= value {
            return;
        }
    }
    let ghost before = *metadata;
    if metadata.is_none() {
        *metadata = Some(json_empty_object());
    }
    match metadata {
        Some(meta) => {
            match json_object_mut(meta) {
                Some(entries) => {
                    if json_get(entries, ADAPTIVE_KEY).is_none() {
                        json_insert(entries, ADAPTIVE_KEY, json_empty_object());
                    }
                    match json_get_mut(entries, ADAPTIVE_KEY) {
                        Some(annotations) => {
                            match json_object_mut(annotations) {
                                Some(notes) => {
                                    json_insert(
                                        notes,
                                        LATENCY_SENSITIVITY_KEY,
                                        json_number(value),
                                    );
                                },
                                None => {},
                            }
                        },
                        None => {},
                    }
                },
                None => {},
            }
        },
        None => {},
    }
    proof {
        let after = *metadata;
        if takes_annotations(before) {
            assert(metadata_entries(after) =~= metadata_entries(before).insert(
                ADAPTIVE_KEY@,
                metadata_entries(after)[ADAPTIVE_KEY@],
            ));
            assert(annotations(after) =~= annotations(before).insert(
                LATENCY_SENSITIVITY_KEY@,
                annotations(after)[LATENCY_SENSITIVITY_KEY@],
            ));
        } else {
            assert(metadata_entries(after) =~= metadata_entries(before));
        }
    }
}

/// Whether `after` are the scopes `before` with the latency sensitivity of the innermost one raised
/// to `value`.
pub open spec fn top_raised(before: Seq<Scope>, after: Seq<Scope>, value: u32) -> bool {
    &&& before.len() > 0
    &&& after == before.update(
        before.len() - 1,
        Scope { metadata: after[before.len() - 1].metadata, ..before.last() },
    )
    &&& sensitivity_raised(before.last().metadata, after[before.len() - 1].metadata, value)
}

/// Sets latency sensitivity on the current (top) scope using max-merge semantics.
///
/// If the current scope already has a latency_sensitivity value, the new value is only applied if it
/// is greater than the existing one. Where the scope stack could not be locked, `stack` is what the
/// lock says of it, and the error passes that on.
pub fn set_latency_sensitivity(stack: Result<&mut ScopeStack, String>, value: u32) -> (r: Result<
    (),
    String,
>)
    ensures
        match stack {
            Ok(s) => r is Ok && top_raised(s.scopes(), final(s).scopes(), value),
            Err(cause) => r is Err && r->Err_0@ == "scope stack lock poisoned: "@ + cause@,
        },
{
    match stack {
        Ok(stack) => {
            let ghost before = stack.scopes();
            let depth: usize = stack.nested.len();
            if depth == 0 {
                raise_sensitivity(&mut stack.root.metadata, value);
            } else {
                raise_sensitivity(&mut stack.nested[depth - 1].metadata, value);
            }
            proof {
                let after = stack.scopes();
                assert(after =~= before.update(
                    before.len() - 1,
                    Scope { metadata: after[before.len() - 1].metadata, ..before.last() },
                ));
            }
            Ok(())
        },
        Err(cause) => {
            let mut message = "scope stack lock poisoned: ".to_owned();
            message.append(cause.as_str());
            Err(message)
        },
    }
}

/// A sensitivity that is written is read back.
proof fn lemma_written_is_read(before: Option<Value>, after: Option<Value>, value: u32)
    requires
        sensitivity_written(before, after, value),
    ensures
        sensitivity_of(after) == Some(value),
{
    reveal_with_fuel(json_at, 3);
    let v = after->0;
    let path = sensitivity_path();
    assert(path.drop_last() =~= seq![ADAPTIVE_KEY@]);
    assert(path.drop_last().drop_last() =~= Seq::<Seq<char>>::empty());
    assert(json_at(v, path.drop_last()) == member(json_view(v), ADAPTIVE_KEY@));
}

/// Metadata that is the same one level deep has the same sensitivity.
proof fn lemma_same_sensitivity(a: Option<Value>, b: Option<Value>)
    requires
        metadata_view(a) == metadata_view(b),
    ensures
        sensitivity_of(a) == sensitivity_of(b),
{
    reveal_with_fuel(json_at, 3);
    let path = sensitivity_path();
    assert(path.drop_last() =~= seq![ADAPTIVE_KEY@]);
    assert(path.drop_last().drop_last() =~= Seq::<Seq<char>>::empty());
    if let Some(v) = a {
        assert(json_at(v, path.drop_last()) == member(json_view(v), ADAPTIVE_KEY@));
    }
    if let Some(v) = b {
        assert(json_at(v, path.drop_last()) == member(json_view(v), ADAPTIVE_KEY@));
    }
}

/// After the latency sensitivity of the innermost scope was set, reading the stack gives the larger
/// of what it gave before and the value that was set, provided that the scope has room for it.
pub proof fn law_set_sensitivity_is_read(before: Seq<Scope>, after: Seq<Scope>, value: u32)
    requires
        top_raised(before, after, value),
        takes_annotations(before.last().metadata),
    ensures
        highest_sensitivity(after) == higher(highest_sensitivity(before), Some(value)),
{
    let old_top = before.last().metadata;
    let new_top = after[before.len() - 1].metadata;
    assert(after.drop_last() =~= before.drop_last());
    assert(after.last().metadata == new_top);
    if already_sensitive(old_top, value) {
        lemma_same_sensitivity(old_top, new_top);
    } else {
        lemma_written_is_read(old_top, new_top, value);
    }
}

/// Where a scope has no room for it, setting the latency sensitivity changes nothing that is read.
pub proof fn law_set_sensitivity_without_room(before: Seq<Scope>, after: Seq<Scope>, value: u32)
    requires
        top_raised(before, after, value),
        !takes_annotations(before.last().metadata),
    ensures
        highest_sensitivity(after) == highest_sensitivity(before),
{
    assert(after.drop_last() =~= before.drop_last());
    lemma_same_sensitivity(before.last().metadata, after.last().metadata);
}

/// What is read is at least every sensitivity on the stack, and one of them.
pub proof fn law_highest_sensitivity_wins(scopes: Seq<Scope>, i: int)
    requires
        0 <= i < scopes.len(),
        sensitivity_of(scopes[i].metadata) is Some,
    ensures
        highest_sensitivity(scopes) matches Some(highest) && highest >= sensitivity_of(
            scopes[i].metadata,
        )->0 && (exists|j: int|
            0 <= j < scopes.len() && sensitivity_of((#[trigger] scopes[j]).metadata) == Some(
                highest,
            )),
    decreases scopes.len(),
{
    let front = scopes.drop_last();
    let last = scopes.len() - 1;
    assert(scopes.last() == scopes[last]);
    if i < last {
        assert(front[i] == scopes[i]);
        law_highest_sensitivity_wins(front, i);
        let j = choose|j: int|
            0 <= j < front.len() && sensitivity_of((#[trigger] front[j]).metadata)
                == highest_sensitivity(front);
        assert(scopes[j] == front[j]);
    } else if highest_sensitivity(front) is Some {
        lemma_some_sensitivity(front);
        let k = choose|k: int|
            0 <= k < front.len() && sensitivity_of((#[trigger] front[k]).metadata) is Some;
        law_highest_sensitivity_wins(front, k);
        let j = choose|j: int|
            0 <= j < front.len() && sensitivity_of((#[trigger] front[j]).metadata)
                == highest_sensitivity(front);
        assert(scopes[j] == front[j]);
    }
}

proof fn lemma_some_sensitivity(scopes: Seq<Scope>)
    requires
        highest_sensitivity(scopes) is Some,
    ensures
        exists|k: int|
            0 <= k < scopes.len() && sensitivity_of((#[trigger] scopes[k]).metadata) is Some,
    decreases scopes.len(),
{
    let front = scopes.drop_last();
    if highest_sensitivity(front) is Some {
        lemma_some_sensitivity(front);
        let k = choose|k: int|
            0 <= k < front.len() && sensitivity_of((#[trigger] front[k]).metadata) is Some;
        assert(scopes[k] == front[k]);
    } else {
        assert(sensitivity_of(scopes[scopes.len() - 1].metadata) is Some);
    }
}

/// The innermost scope with a workflow class decides.
pub proof fn law_deepest_class_wins(scopes: Seq<Scope>, i: int)
    requires
        0 <= i < scopes.len(),
        class_of(scopes[i].metadata) is Some,
        forall|j: int| i < j < scopes.len() ==> class_of((#[trigger] scopes[j]).metadata) is None,
    ensures
        nearest_class(scopes) == class_of(scopes[i].metadata),
    decreases scopes.len(),
{
    if i < scopes.len() - 1 {
        let front = scopes.drop_last();
        assert(class_of(scopes[scopes.len() - 1].metadata) is None);
        assert(front[i] == scopes[i]);
        assert forall|j: int| i < j < front.len() implies class_of((#[trigger] front[j]).metadata)
            is None by {
            assert(front[j] == scopes[j]);
        }
        law_deepest_class_wins(front, i);
    }
}

/// Whether the scope at `k` is the outermost agent among scopes.
pub open spec fn first_agent(scopes: Seq<Scope>, k: int) -> bool {
    &&& 0 <= k < scopes.len()
    &&& scopes[k].scope_type == ScopeType::Agent
    &&& forall|j: int| 0 <= j < k ==> (#[trigger] scopes[j]).scope_type != ScopeType::Agent
}

/// Resolves the agent ID from the scope stack.
///
/// Walks all scopes from root to top, skipping the implicit root scope, and returns the name of the
/// first Agent-typed scope.
pub fn resolve_agent_id(stack: Option<&ScopeStack>) -> (r: Option<String>)
    ensures
        match (stack, r) {
            (Some(s), Some(name)) => exists|k: int| #[trigger]
                first_agent(s.nested@, k) && name == s.nested@[k].name,
            (Some(s), None) => forall|j: int|
                0 <= j < s.nested@.len() ==> (#[trigger] s.nested@[j]).scope_type
                    != ScopeType::Agent,
            (None, name) => name is None,
        },
{
    match stack {
        Some(stack) => first_agent_name(&stack.nested),
        None => None,
    }
}

fn first_agent_name(scopes: &Vec<Scope>) -> (r: Option<String>)
    ensures
        match r {
            Some(name) => exists|k: int| #[trigger]
                first_agent(scopes@, k) && name == scopes@[k].name,
            None => forall|j: int|
                0 <= j < scopes@.len() ==> (#[trigger] scopes@[j]).scope_type != ScopeType::Agent,
        },
{
    let mut i: usize = 0;
    while i < scopes.len()
        invariant
            i <= scopes.len(),
            forall|j: int| 0 <= j < i ==> (#[trigger] scopes@[j]).scope_type != ScopeType::Agent,
        decreases scopes.len() - i,
    {
        if scopes[i].scope_type == ScopeType::Agent {
            proof {
                assert(first_agent(scopes@, i as int));
            }
            return Some(scopes[i].name.clone());
        }
        i += 1;
    }
    None
}

/// Resolves the root scope UUID for the current execution tree.
pub fn resolve_root_scope_uuid(stack: Option<&ScopeStack>) -> (r: Option<u128>)
    ensures
        r == match stack {
            Some(s) => Some(s.root.uuid),
            None => None,
        },
{
    match stack {
        Some(stack) => Some(stack.root_uuid()),
        None => None,
    }
}

/// The path of the run-boundary override.
pub open spec fn run_boundary_path() -> Seq<Seq<char>> {
    seq!["nemo_flow.run_boundary"@]
}

/// Whether a scope bounds a run: an agent does, unless its metadata says otherwise.
pub open spec fn bounds_run(scope: Scope) -> bool {
    &&& scope.scope_type == ScopeType::Agent
    &&& match meta_at(scope.metadata, run_boundary_path()) {
        Some(value) => bool_of(value) != Some(false),
        None => true,
    }
}

/// The identifier of the innermost scope that bounds a run.
pub open spec fn nearest_boundary(scopes: Seq<Scope>) -> Option<u128>
    decreases scopes.len(),
{
    if scopes.len() == 0 {
        None
    } else if bounds_run(scopes.last()) {
        Some(scopes.last().uuid)
    } else {
        nearest_boundary(scopes.drop_last())
    }
}

fn is_boundary(scope: &Scope) -> (r: bool)
    ensures
        r == bounds_run(*scope),
{
    proof {
        reveal_strlit("nemo_flow.run_boundary");
        reveal_strlit("/nemo_flow.run_boundary");
        lemma_pointer_of_one("nemo_flow.run_boundary"@);
        assert(pointer_of(run_boundary_path()) =~= RUN_BOUNDARY_POINTER@);
        assert(plain_key("nemo_flow.run_boundary"@));
        assert(plain_path(run_boundary_path()));
    }
    if scope.scope_type != ScopeType::Agent {
        return false;
    }
    match &scope.metadata {
        Some(metadata) => match json_pointer(metadata, RUN_BOUNDARY_POINTER) {
            Some(value) => match json_bool(value) {
                Some(flag) => flag,
                None => true,
            },
            None => true,
        },
        None => true,
    }
}

/// Resolves the active adaptive run-boundary scope UUID.
///
/// This mirrors telemetry drain semantics: Agent scopes are run boundaries by default, unless their
/// metadata explicitly sets `nemo_flow.run_boundary` to `false`. The deepest active boundary wins. If
/// no explicit Agent boundary is visible, fall back to the implicit scope-stack root.
pub fn resolve_run_boundary_scope_uuid(stack: Option<&ScopeStack>) -> (r: Option<u128>)
    ensures
        r == match stack {
            Some(s) => match nearest_boundary(s.nested@) {
                Some(uuid) => Some(uuid),
                None => Some(s.root.uuid),
            },
            None => None,
        },
{
    match stack {
        Some(stack) => match innermost_boundary(&stack.nested) {
            Some(uuid) => Some(uuid),
            None => Some(stack.root_uuid()),
        },
        None => None,
    }
}

fn innermost_boundary(scopes: &Vec<Scope>) -> (r: Option<u128>)
    ensures
        r == nearest_boundary(scopes@),
{
    let mut i: usize = scopes.len();
    proof {
        assert(scopes@.take(i as int) =~= scopes@);
    }
    while i > 0
        invariant
            i <= scopes.len(),
            nearest_boundary(scopes@) == nearest_boundary(scopes@.take(i as int)),
        decreases i,
    {
        proof {
            assert(scopes@.take(i as int).drop_last() =~= scopes@.take(i - 1));
        }
        i -= 1;
        if is_boundary(&scopes[i]) {
            return Some(scopes[i].uuid);
        }
    }
    None
}

/// Resolves the session-local identity used by warm-first cohort coordination.
///
/// The shared parent must come from the parent scope, not the current scope's own UUID, so siblings
/// under the same fan-out coordinate with one another.
pub fn resolve_shared_parent_scope_identity(stack: Option<&ScopeStack>) -> (r: Option<
    SharedParentScopeIdentity,
>)
    ensures
        r == match stack {
            Some(s) => Some(
                SharedParentScopeIdentity {
                    root_uuid: s.root.uuid,
                    shared_parent_uuid: match s.innermost().parent_uuid {
                        Some(uuid) => uuid,
                        None => s.root.uuid,
                    },
                },
            ),
            None => None,
        },
{
    match stack {
        Some(stack) => {
            let root_uuid: u128 = stack.root_uuid();
            let shared_parent_uuid: u128 = match stack.top().parent_uuid {
                Some(uuid) => uuid,
                None => root_uuid,
            };
            Some(SharedParentScopeIdentity { root_uuid, shared_parent_uuid })
        },
        None => None,
    }
}

/// A scope path is the names of the agents and functions among the scopes, in their order.
pub proof fn law_path_names_agents_and_functions(scopes: Seq<Scope>)
    ensures
        ({
            let named = scopes.filter(
                |scope: Scope|
                    scope.scope_type == ScopeType::Agent || scope.scope_type == ScopeType::Function,
            );
            &&& path_names(scopes).len() == named.len()
            &&& forall|i: int|
                0 <= i < named.len() ==> #[trigger] path_names(scopes)[i] == named[i].name@
        }),
    decreases scopes.len(),
{
    reveal(Seq::filter);
    if scopes.len() > 0 {
        law_path_names_agents_and_functions(scopes.drop_last());
    }
}

/// The manual latency sensitivity of a scope is the number in its adaptive metadata.
pub proof fn law_metadata_sets_sensitivity(metadata: Value, notes: Value, number: Value, n: u32)
    requires
        member(json_view(metadata), "nemo_flow_adaptive"@) == Some(notes),
        member(json_view(notes), "latency_sensitivity"@) == Some(number),
        number_of(number) == Some(n as u64),
    ensures
        sensitivity_of(Some(metadata)) == Some(n),
        sensitivity_of(None) is None,
{
    reveal_with_fuel(json_at, 3);
    let path = sensitivity_path();
    assert(path.drop_last() =~= seq![ADAPTIVE_KEY@]);
    assert(path.drop_last().drop_last() =~= Seq::<Seq<char>>::empty());
    assert(json_at(metadata, path.drop_last()) == member(json_view(metadata), ADAPTIVE_KEY@));
}

/// A scope that says nothing of a latency sensitivity has none.
pub proof fn law_no_sensitivity_without_metadata(metadata: Value)
    requires
        match member(json_view(metadata), "nemo_flow_adaptive"@) {
            Some(notes) => match member(json_view(notes), "latency_sensitivity"@) {
                Some(number) => number_of(number) is None,
                None => true,
            },
            None => true,
        },
    ensures
        sensitivity_of(Some(metadata)) is None,
{
    reveal_with_fuel(json_at, 3);
    let path = sensitivity_path();
    assert(path.drop_last() =~= seq![ADAPTIVE_KEY@]);
    assert(path.drop_last().drop_last() =~= Seq::<Seq<char>>::empty());
    assert(json_at(metadata, path.drop_last()) == member(json_view(metadata), ADAPTIVE_KEY@));
}

/// Whether two texts are the same but for the case of their ASCII letters, of which the second has
/// only lower-case ones.
pub open spec fn same_but_for_case(s: Seq<char>, word: Seq<char>) -> bool {
    &&& s.len() == word.len()
    &&& forall|i: int|
        0 <= i < s.len() ==> ((#[trigger] s[i]) == word[i] && !('A' <= s[i] && s[i] <= 'Z')) || (
        'A' <= s[i] && s[i] <= 'Z' && word[i] as int == s[i] as int + 32)
}

/// A workflow class is read whatever the case of its letters and whatever white space is around it,
/// and nothing else is read as one.
pub proof fn law_classes_are_read_by_name(
    before: Seq<char>,
    word: Seq<char>,
    after: Seq<char>,
)
    requires
        forall|i: int| 0 <= i < before.len() ==> whitespace(#[trigger] before[i]),
        forall|i: int| 0 <= i < after.len() ==> whitespace(#[trigger] after[i]),
        word.len() > 0 ==> !whitespace(word[0]) && !whitespace(word.last()),
    ensures
        class_named(before + word + after) == Some(WorkflowClass::Interactive)
            <==> same_but_for_case(word, "interactive"@),
        class_named(before + word + after) == Some(WorkflowClass::Standard) <==> same_but_for_case(
            word,
            "standard"@,
        ),
        class_named(before + word + after) == Some(WorkflowClass::Background)
            <==> same_but_for_case(word, "background"@),
{
    let s = before + word + after;
    reveal_strlit("interactive");
    reveal_strlit("standard");
    reveal_strlit("background");
    if word.len() > 0 {
        assert forall|i: int| 0 <= i < before.len() implies whitespace(#[trigger] s[i]) by {
            assert(s[i] == before[i]);
        }
        assert(s[before.len() as int] == word[0]);
        lemma_start_trimmed(s, before.len() as int);
        let rest = s.skip(before.len() as int);
        assert(rest =~= word + after);
        assert forall|i: int| word.len() <= i < rest.len() implies whitespace(
            #[trigger] rest[i],
        ) by {
            assert(rest[i] == after[i - word.len()]);
        }
        assert(rest[word.len() - 1] == word.last());
        lemma_end_trimmed(rest, word.len() as int);
        assert(rest.take(word.len() as int) =~= word);
    } else {
        assert forall|i: int| 0 <= i < s.len() implies whitespace(#[trigger] s[i]) by {
            if i < before.len() {
                assert(s[i] == before[i]);
            } else {
                assert(s[i] == after[i - before.len()]);
            }
        }
        lemma_start_trimmed(s, s.len() as int);
        lemma_end_trimmed(s.skip(s.len() as int), 0);
        assert(normalized(s) =~= Seq::<char>::empty());
    }
    let lower = normalized(s);
    assert(lower =~= word.map_values(|c: char| ascii_lower(c)));
    lemma_case(word, lower, "interactive"@);
    lemma_case(word, lower, "standard"@);
    lemma_case(word, lower, "background"@);
}

proof fn lemma_case(word: Seq<char>, lower: Seq<char>, name: Seq<char>)
    requires
        lower == word.map_values(|c: char| ascii_lower(c)),
        forall|i: int| 0 <= i < name.len() ==> 'a' <= (#[trigger] name[i]) && name[i] <= 'z',
    ensures
        lower == name <==> same_but_for_case(word, name),
{
    if lower == name {
        assert forall|i: int| 0 <= i < word.len() implies ((#[trigger] word[i]) == name[i] && !(
        'A' <= word[i] && word[i] <= 'Z')) || ('A' <= word[i] && word[i] <= 'Z' && name[i] as int
            == word[i] as int + 32) by {
            assert(lower[i] == ascii_lower(word[i]));
            assert(lower[i] == name[i]);
        }
    }
    if same_but_for_case(word, name) {
        assert forall|i: int| 0 <= i < word.len() implies lower[i] == name[i] by {
            assert(lower[i] == ascii_lower(word[i]));
        }
        assert(lower =~= name);
    }
}

/// What stands under the workflow class in the adaptive metadata of a scope is its class. The older
/// scheduling class counts only where nothing stands there.
pub proof fn law_workflow_class_counts_first(metadata: Value, notes: Value)
    requires
        member(json_view(metadata), "nemo_flow_adaptive"@) == Some(notes),
    ensures
        class_of(Some(metadata)) == match member(json_view(notes), "workflow_class"@) {
            Some(value) => match text_of(value) {
                Some(text) => class_named(text),
                None => None,
            },
            None => match member(json_view(notes), "scheduling_class"@) {
                Some(value) => match text_of(value) {
                    Some(text) => class_named(text),
                    None => None,
                },
                None => None,
            },
        },
{
    reveal_with_fuel(json_at, 3);
    let path = workflow_class_path();
    let older = scheduling_class_path();
    assert(path.drop_last() =~= seq![ADAPTIVE_KEY@]);
    assert(older.drop_last() =~= seq![ADAPTIVE_KEY@]);
    assert(path.drop_last().drop_last() =~= Seq::<Seq<char>>::empty());
    assert(json_at(metadata, path.drop_last()) == member(json_view(metadata), ADAPTIVE_KEY@));
    assert(json_at(metadata, older.drop_last()) == member(json_view(metadata), ADAPTIVE_KEY@));
}

/// Where no scope has a workflow class, there is none.
pub proof fn law_no_class_without_a_scope(scopes: Seq<Scope>)
    requires
        forall|j: int| 0 <= j < scopes.len() ==> class_of((#[trigger] scopes[j]).metadata) is None,
    ensures
        nearest_class(scopes) is None,
    decreases scopes.len(),
{
    if scopes.len() > 0 {
        let front = scopes.drop_last();
        assert(class_of(scopes[scopes.len() - 1].metadata) is None);
        assert forall|j: int| 0 <= j < front.len() implies class_of(
            (#[trigger] front[j]).metadata,
        ) is None by {
            assert(front[j] == scopes[j]);
        }
        law_no_class_without_a_scope(front);
    }
}

/// Whether the metadata of a scope says that it bounds no run.
pub open spec fn bounds_none(scope: Scope) -> bool {
    scope.metadata matches Some(metadata) && member(json_view(metadata), "nemo_flow.run_boundary"@)
        matches Some(value) && json_view(value) == JsonView::Bool(false)
}

/// The innermost agent that does not say otherwise bounds the run, and nothing but an agent does.
pub proof fn law_innermost_agent_bounds_the_run(scopes: Seq<Scope>, i: int)
    requires
        0 <= i < scopes.len(),
        scopes[i].scope_type == ScopeType::Agent && !bounds_none(scopes[i]),
        forall|j: int|
            i < j < scopes.len() ==> (#[trigger] scopes[j]).scope_type != ScopeType::Agent
                || bounds_none(scopes[j]),
    ensures
        nearest_boundary(scopes) == Some(scopes[i].uuid),
    decreases scopes.len(),
{
    lemma_bounds(scopes.last());
    assert(scopes.last() == scopes[scopes.len() - 1]);
    if i < scopes.len() - 1 {
        let front = scopes.drop_last();
        assert(front[i] == scopes[i]);
        assert forall|j: int| i < j < front.len() implies (#[trigger] front[j]).scope_type
            != ScopeType::Agent || bounds_none(front[j]) by {
            assert(front[j] == scopes[j]);
        }
        law_innermost_agent_bounds_the_run(front, i);
    }
}

/// Where no agent bounds a run, none is bounded.
pub proof fn law_no_boundary_without_an_agent(scopes: Seq<Scope>)
    requires
        forall|j: int|
            0 <= j < scopes.len() ==> (#[trigger] scopes[j]).scope_type != ScopeType::Agent
                || bounds_none(scopes[j]),
    ensures
        nearest_boundary(scopes) is None,
    decreases scopes.len(),
{
    if scopes.len() > 0 {
        lemma_bounds(scopes.last());
        assert(scopes.last() == scopes[scopes.len() - 1]);
        let front = scopes.drop_last();
        assert forall|j: int| 0 <= j < front.len() implies (#[trigger] front[j]).scope_type
            != ScopeType::Agent || bounds_none(front[j]) by {
            assert(front[j] == scopes[j]);
        }
        law_no_boundary_without_an_agent(front);
    }
}

proof fn lemma_bounds(scope: Scope)
    ensures
        bounds_run(scope) <==> scope.scope_type == ScopeType::Agent && !bounds_none(scope),
{
    reveal_with_fuel(json_at, 2);
    let path = run_boundary_path();
    assert(path.drop_last() =~= Seq::<Seq<char>>::empty());
}

/// A scope is a graph node with a task where its metadata flags it as a node and names a task, and a
/// graph where its metadata flags it as one.
pub proof fn law_metadata_marks_graphs(scope: Scope, metadata: Value)
    requires
        scope.metadata == Some(metadata),
    ensures
        names_task(scope) <==> {
            &&& member(json_view(metadata), "nemo_flow.graph.node"@) matches Some(flag)
                && json_view(flag) == JsonView::Bool(true)
            &&& member(json_view(metadata), "nemo_flow.graph.task_id"@) matches Some(task)
                && json_view(task) is Text
        },
        is_graph(scope) <==> (member(json_view(metadata), "nemo_flow.graph.scope"@) matches Some(
            flag,
        ) && json_view(flag) == JsonView::Bool(true)),
{
}

/// What is read of a graph call is what the innermost graph node with a task says, and the name of the
/// innermost graph.
pub proof fn law_innermost_node_tells_the_task(
    scopes: Seq<Scope>,
    k: int,
    context: GraphCallContext,
    metadata: Value,
    task: Value,
    g: int,
)
    requires
        graph_context_at(scopes, k, context),
        scopes[k].metadata == Some(metadata),
        member(json_view(metadata), "nemo_flow.graph.task_id"@) == Some(task),
    ensures
        0 <= k < scopes.len() && names_task(scopes[k]),
        forall|j: int| k < j < scopes.len() ==> !names_task(#[trigger] scopes[j]),
        json_view(task) == JsonView::Text(context.task_id@),
        Some(context.node_name@) == node_name_of(scopes[k].name@, Some(metadata)),
        texts(context.depends_on_task_ids@) == words_of(
            Some(metadata),
            "nemo_flow.graph.depends_on_task_ids"@,
        ),
        (0 <= g < scopes.len() && is_graph(scopes[g]) && forall|j: int|
            g < j < scopes.len() ==> !is_graph(#[trigger] scopes[j])) ==> context.graph_name
            == Some(scopes[g].name),
        (forall|j: int| 0 <= j < scopes.len() ==> !is_graph(#[trigger] scopes[j]))
            ==> context.graph_name is None,
{
    if 0 <= g < scopes.len() && is_graph(scopes[g]) && forall|j: int|
        g < j < scopes.len() ==> !is_graph(#[trigger] scopes[j]) {
        assert(context.graph_name is Some);
        let j = choose|j: int| #[trigger]
            graph_scope(scopes, j) && context.graph_name->0 == scopes[j].name;
        assert(is_graph(scopes[j]));
        if j < g {
            assert(!is_graph(scopes[g]));
        }
    }
}

/// Setting the latency sensitivity leaves the rest of the metadata of the scope as it was: its other
/// entries, its other adaptive notes, and so its workflow class. Other scopes are not touched.
pub proof fn law_set_sensitivity_keeps_the_rest(
    before: Seq<Scope>,
    after: Seq<Scope>,
    value: u32,
    other: Seq<char>,
    i: int,
)
    requires
        top_raised(before, after, value),
    ensures
        after.len() == before.len(),
        0 <= i < before.len() - 1 ==> after[i] == before[i],
        after.last().name == before.last().name,
        after.last().uuid == before.last().uuid,
        after.last().scope_type == before.last().scope_type,
        other != "nemo_flow_adaptive"@ ==> noted(after.last().metadata, other) == noted(
            before.last().metadata,
            other,
        ),
        takes_annotations(before.last().metadata) && other != "latency_sensitivity"@
            ==> adaptive_note(after.last().metadata, other) == adaptive_note(
            before.last().metadata,
            other,
        ),
{
    let (was, is) = (before.last().metadata, after[before.len() - 1].metadata);
    assert(after.last().metadata == is);
    if !already_sensitive(was, value) && takes_annotations(was) {
        assert(metadata_entries(is).contains_key(other) <==> metadata_entries(
            was,
        ).contains_key(other) || other == ADAPTIVE_KEY@);
        assert(annotations(is).contains_key(other) <==> annotations(was).contains_key(other)
            || other == LATENCY_SENSITIVITY_KEY@);
    }
}

/// The entry of metadata under a key.
pub open spec fn noted(metadata: Option<Value>, key: Seq<char>) -> Option<Value> {
    match metadata {
        Some(value) => member(json_view(value), key),
        None => None,
    }
}

/// The note under a key in the adaptive part of metadata.
pub open spec fn adaptive_note(metadata: Option<Value>, key: Seq<char>) -> Option<Value> {
    match noted(metadata, "nemo_flow_adaptive"@) {
        Some(notes) => member(json_view(notes), key),
        None => None,
    }
}

} // verus!
