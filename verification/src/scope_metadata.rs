//! Generic scope metadata keys consumed by adaptive telemetry.
use crate::json::{bool_of, json_array, json_bool, json_get, json_object, json_str, json_view, member, text_of, JsonView};
use crate::scope::Event;
use crate::text::{optional_text, texts};
use serde_json::Value;
use vstd::prelude::*;

verus! {

/// Metadata key that overrides whether a scope bounds a run.
pub const RUN_BOUNDARY_KEY: &'static str = "nemo_flow.run_boundary";

/// Metadata key that marks a graph.
pub const GRAPH_SCOPE_KEY: &'static str = "nemo_flow.graph.scope";

/// Metadata key that marks a graph node.
pub const GRAPH_NODE_KEY: &'static str = "nemo_flow.graph.node";

/// Metadata key for the name of a graph node.
pub const GRAPH_NODE_NAME_KEY: &'static str = "nemo_flow.graph.node_name";

/// Metadata key for the task of a graph node.
pub const GRAPH_TASK_ID_KEY: &'static str = "nemo_flow.graph.task_id";

/// Metadata key for the tasks that a graph node waited for.
pub const GRAPH_DEPENDS_ON_TASK_IDS_KEY: &'static str = "nemo_flow.graph.depends_on_task_ids";

/// Graph facts of a scope.
#[derive(Debug)]
pub struct ScopeGraphMetadata {
    /// Whether the scope is a graph.
    pub is_graph_scope: bool,
    /// Whether the scope is a graph node.
    pub is_graph_node: bool,
    /// Name of the graph node, when given.
    pub node_name: Option<String>,
    /// Task of the graph node, when given.
    pub task_id: Option<String>,
    /// Tasks that the graph node waited for.
    pub depends_on_task_ids: Vec<String>,
}

/// The metadata entry under a key.
pub open spec fn entry_of(metadata: Option<Value>, key: Seq<char>) -> Option<Value> {
    match metadata {
        Some(value) => member(json_view(value), key),
        None => None,
    }
}

/// The truth value under a metadata key.
pub open spec fn flag_of(metadata: Option<Value>, key: Seq<char>) -> Option<bool> {
    match entry_of(metadata, key) {
        Some(value) => bool_of(value),
        None => None,
    }
}

/// The text under a metadata key.
pub open spec fn word_of(metadata: Option<Value>, key: Seq<char>) -> Option<Seq<char>> {
    match entry_of(metadata, key) {
        Some(value) => text_of(value),
        None => None,
    }
}

/// The texts among JSON values, in order.
pub open spec fn texts_among(items: Seq<Value>) -> Seq<Seq<char>>
    decreases items.len(),
{
    if items.len() == 0 {
        Seq::empty()
    } else {
        let earlier = texts_among(items.drop_last());
        match text_of(items.last()) {
            Some(text) => earlier.push(text),
            None => earlier,
        }
    }
}

/// The texts in the list under a metadata key.
pub open spec fn words_of(metadata: Option<Value>, key: Seq<char>) -> Seq<Seq<char>> {
    match entry_of(metadata, key) {
        Some(value) => match json_view(value) {
            JsonView::Array(items) => texts_among(items),
            _ => Seq::empty(),
        },
        None => Seq::empty(),
    }
}

/// Whether `graph` holds the graph facts of metadata, with `node_name` for the name of the node.
pub open spec fn graph_facts(
    metadata: Option<Value>,
    node_name: Option<Seq<char>>,
    graph: ScopeGraphMetadata,
) -> bool {
    &&& graph.is_graph_scope == (flag_of(metadata, GRAPH_SCOPE_KEY@) == Some(true))
    &&& graph.is_graph_node == (flag_of(metadata, GRAPH_NODE_KEY@) == Some(true))
    &&& optional_text(graph.node_name) == node_name
    &&& optional_text(graph.task_id) == word_of(metadata, GRAPH_TASK_ID_KEY@)
    &&& texts(graph.depends_on_task_ids@) == words_of(metadata, GRAPH_DEPENDS_ON_TASK_IDS_KEY@)
}

/// The name of a node: the one that metadata gives, else, for a graph node, the scope's own.
pub open spec fn node_name_of(name: Seq<char>, metadata: Option<Value>) -> Option<Seq<char>> {
    match word_of(metadata, GRAPH_NODE_NAME_KEY@) {
        Some(text) => Some(text),
        None => if flag_of(metadata, GRAPH_NODE_KEY@) == Some(true) {
            Some(name)
        } else {
            None
        },
    }
}

fn metadata_entry<'a>(metadata: &'a Option<Value>, key: &str) -> (r: Option<&'a Value>)
    ensures
        match entry_of(*metadata, key@) {
            Some(value) => r == Some(&value),
            None => r is None,
        },
{
    match metadata {
        Some(value) => match json_object(value) {
            Some(object) => json_get(object, key),
            None => None,
        },
        None => None,
    }
}

/// Reads the truth value under a metadata key.
pub fn metadata_bool(metadata: &Option<Value>, key: &str) -> (r: Option<bool>)
    ensures
        r == flag_of(*metadata, key@),
{
    match metadata_entry(metadata, key) {
        Some(value) => json_bool(value),
        None => None,
    }
}

/// Reads the text under a metadata key.
pub fn metadata_str(metadata: &Option<Value>, key: &str) -> (r: Option<String>)
    ensures
        optional_text(r) == word_of(*metadata, key@),
{
    match metadata_entry(metadata, key) {
        Some(value) => match json_str(value) {
            Some(text) => Some(text.to_owned()),
            None => None,
        },
        None => None,
    }
}

/// Reads the texts in the list under a metadata key.
pub fn metadata_strs(metadata: &Option<Value>, key: &str) -> (r: Vec<String>)
    ensures
        texts(r@) == words_of(*metadata, key@),
{
    let mut out: Vec<String> = Vec::new();
    if let Some(value) = metadata_entry(metadata, key) {
        if let Some(items) = json_array(value) {
            let mut i: usize = 0;
            proof {
                assert(texts(out@) =~= texts_among(items@.take(0)));
            }
            while i < items.len()
                invariant
                    i <= items.len(),
                    texts(out@) == texts_among(items@.take(i as int)),
                decreases items.len() - i,
            {
                let ghost before = out@;
                proof {
                    assert(items@.take(i + 1).drop_last() =~= items@.take(i as int));
                    assert(items@.take(i + 1).last() == items@[i as int]);
                }
                if let Some(text) = json_str(&items[i]) {
                    out.push(text.to_owned());
                    proof {
                        assert(texts(out@) =~= texts(before).push(text@));
                    }
                }
                i += 1;
            }
            proof {
                assert(items@.take(items.len() as int) =~= items@);
            }
            return out;
        }
    }
    proof {
        assert(texts(out@) =~= Seq::<Seq<char>>::empty());
    }
    out
}

/// Reads whether an event's metadata overrides that its scope bounds a run.
pub fn run_boundary_override(event: &Event) -> (r: Option<bool>)
    ensures
        r == flag_of(event.metadata, RUN_BOUNDARY_KEY@),
{
    metadata_bool(&event.metadata, RUN_BOUNDARY_KEY)
}

fn is_set(flag: Option<bool>) -> (r: bool)
    ensures
        r == (flag == Some(true)),
{
    match flag {
        Some(flag) => flag,
        None => false,
    }
}

fn graph_metadata(metadata: &Option<Value>) -> (r: ScopeGraphMetadata)
    ensures
        graph_facts(*metadata, word_of(*metadata, GRAPH_NODE_NAME_KEY@), r),
{
    ScopeGraphMetadata {
        is_graph_scope: is_set(metadata_bool(metadata, GRAPH_SCOPE_KEY)),
        is_graph_node: is_set(metadata_bool(metadata, GRAPH_NODE_KEY)),
        node_name: metadata_str(metadata, GRAPH_NODE_NAME_KEY),
        task_id: metadata_str(metadata, GRAPH_TASK_ID_KEY),
        depends_on_task_ids: metadata_strs(metadata, GRAPH_DEPENDS_ON_TASK_IDS_KEY),
    }
}

/// Reads the graph facts of an event's scope.
pub fn scope_graph_metadata(event: &Event) -> (r: ScopeGraphMetadata)
    ensures
        graph_facts(event.metadata, word_of(event.metadata, GRAPH_NODE_NAME_KEY@), r),
{
    graph_metadata(&event.metadata)
}

/// Reads the graph facts of a scope. A graph node without a name of its own goes by the scope's.
pub fn scope_graph_metadata_from_value(name: &String, metadata: &Option<Value>) -> (r:
    ScopeGraphMetadata)
    ensures
        graph_facts(*metadata, node_name_of(name@, *metadata), r),
{
    let mut graph = graph_metadata(metadata);
    if graph.is_graph_node && graph.node_name.is_none() {
        graph.node_name = Some(name.clone());
    }
    graph
}

/// The texts under a metadata key are those that its list holds, in order; anything else in the list
/// is passed over.
pub proof fn law_listed_texts_are_read(metadata: Value, key: Seq<char>, list: Value, items: Seq<Value>)
    requires
        member(json_view(metadata), key) == Some(list),
        json_view(list) == JsonView::Array(items),
    ensures
        ({
            let words = items.filter(|item: Value| json_view(item) is Text);
            &&& words_of(Some(metadata), key).len() == words.len()
            &&& forall|i: int|
                0 <= i < words.len() ==> json_view(words[i]) == JsonView::Text(
                    #[trigger] words_of(Some(metadata), key)[i],
                )
        }),
{
    lemma_texts_among(items);
}

proof fn lemma_texts_among(items: Seq<Value>)
    ensures
        ({
            let words = items.filter(|item: Value| json_view(item) is Text);
            &&& texts_among(items).len() == words.len()
            &&& forall|i: int|
                0 <= i < words.len() ==> json_view(words[i]) == JsonView::Text(
                    #[trigger] texts_among(items)[i],
                )
        }),
    decreases items.len(),
{
    reveal(Seq::filter);
    if items.len() > 0 {
        lemma_texts_among(items.drop_last());
    }
}

/// A graph node is named as its metadata says, or else as its scope is; what is no graph node has a
/// name only where its metadata gives one.
pub proof fn law_nodes_are_named(name: Seq<char>, metadata: Value)
    ensures
        ({
            let given = member(json_view(metadata), "nemo_flow.graph.node_name"@);
            let node = member(json_view(metadata), "nemo_flow.graph.node"@);
            let named = given is Some && json_view(given->0) is Text;
            &&& named ==> node_name_of(name, Some(metadata)) is Some && json_view(given->0)
                == JsonView::Text(node_name_of(name, Some(metadata))->0)
            &&& !named ==> node_name_of(name, Some(metadata)) == if node is Some && json_view(
                node->0,
            ) == JsonView::Bool(true) {
                Some(name)
            } else {
                None
            }
        }),
        node_name_of(name, None) is None,
{
}

} // verus!
