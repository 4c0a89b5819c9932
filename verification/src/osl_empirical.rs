//! Online empirical OSL learner state and request-signature types.
use crate::ids::{id_text, law_id_texts_apart, lemma_id_text_len, write_id};
use crate::order::{nearest_rank_quantile, quantile};
use crate::records::{CallKind, CallRecord, RunRecord};
use crate::request::{AnnotatedLlmRequest, FinishReason, Message};
use crate::scalar::Scalar;
use crate::table::{kept_freshest, views, without_prefix, Aged, KeyedTable};
use crate::text::{decimal, lemma_bytes_of_both, lemma_decimal_digits, lemma_decimal_injective, lemma_equal_parts, lemma_parted, lemma_some_bytes, push_decimal};
use crate::time::Timestamp;
use std::collections::VecDeque;
use vstd::prelude::*;
use vstd::utf8::encode_utf8;

verus! {

/// Maximum retained output-token samples per empirical OSL context.
pub const MAX_SAMPLES_PER_CONTEXT: usize = 128;

/// Minimum samples before run-local empirical OSL can emit.
pub const RUN_MIN_SAMPLES: usize = 3;

/// Minimum samples before persistent empirical OSL can emit.
pub const PERSISTENT_MIN_SAMPLES: usize = 10;

/// Percentile used for emitted empirical OSL predictions.
pub const OSL_PREDICTION_PERCENTILE: u32 = 85;

/// Lower percentile used for spread confidence.
pub const OSL_SPREAD_LOW_PERCENTILE: u32 = 50;

/// Upper percentile used for spread confidence.
pub const OSL_SPREAD_HIGH_PERCENTILE: u32 = 90;

/// Maximum allowed ratio between p90 and p50, represented as an integer multiplier.
pub const OSL_MAX_SPREAD_MULTIPLIER: u32 = 4;

/// Maximum retained persistent contexts.
pub const MAX_PERSISTENT_CONTEXTS: usize = 512;

/// Maximum retained run-local contexts.
pub const MAX_RUN_CONTEXTS: usize = 256;

/// Message role used in the empirical OSL request signature.
#[derive(Debug, Clone, Copy, PartialEq, Eq, Hash, Structural)]
pub enum OslMessageRole {
    /// System instruction message.
    System,
    /// User message.
    User,
    /// Assistant message.
    Assistant,
    /// Tool result message.
    Tool,
    /// No messages or an unrecognized shape.
    Unknown,
}

/// The role of a message.
pub open spec fn role_of(message: Message) -> OslMessageRole {
    match message {
        Message::System { .. } => OslMessageRole::System,
        Message::User { .. } => OslMessageRole::User,
        Message::Assistant { .. } => OslMessageRole::Assistant,
        Message::Tool { .. } => OslMessageRole::Tool,
    }
}

/// How a role is written in a storage key.
pub open spec fn role_text(role: OslMessageRole) -> Seq<char> {
    match role {
        OslMessageRole::System => "system"@,
        OslMessageRole::User => "user"@,
        OslMessageRole::Assistant => "assistant"@,
        OslMessageRole::Tool => "tool"@,
        OslMessageRole::Unknown => "unknown"@,
    }
}

impl OslMessageRole {
    /// Returns the role of a message.
    pub fn from_message(message: &Message) -> (r: Self)
        ensures
            r == role_of(*message),
    {
        match message {
            Message::System { .. } => OslMessageRole::System,
            Message::User { .. } => OslMessageRole::User,
            Message::Assistant { .. } => OslMessageRole::Assistant,
            Message::Tool { .. } => OslMessageRole::Tool,
        }
    }

    /// Returns how the role is written in a storage key.
    pub fn as_key_part(self) -> (r: &'static str)
        ensures
            r@ == role_text(self),
    {
        match self {
            OslMessageRole::System => "system",
            OslMessageRole::User => "user",
            OslMessageRole::Assistant => "assistant",
            OslMessageRole::Tool => "tool",
            OslMessageRole::Unknown => "unknown",
        }
    }
}

/// Minimal request signature used for online empirical OSL lookup.
#[derive(Debug, Clone, Copy, PartialEq, Eq, Hash, Structural)]
pub struct OslRequestSignature {
    /// Role of the final message in the request, or unknown when there are no messages.
    pub last_message_role: OslMessageRole,
    /// Whether the request includes any assistant message in the visible history.
    pub has_prior_assistant_message: bool,
    /// Whether the request includes any tool result message in the visible history.
    pub has_prior_tool_message: bool,
    /// Whether the request exposes any tool definitions to the model.
    pub tools_defined: bool,
}

/// Whether some message has a role.
pub open spec fn any_with_role(messages: Seq<Message>, role: OslMessageRole) -> bool {
    exists|i: int| 0 <= i < messages.len() && role_of(#[trigger] messages[i]) == role
}

/// The signature of a request.
pub open spec fn signature_of(request: AnnotatedLlmRequest) -> OslRequestSignature {
    OslRequestSignature {
        last_message_role: if request.messages@.len() == 0 {
            OslMessageRole::Unknown
        } else {
            role_of(request.messages@.last())
        },
        has_prior_assistant_message: any_with_role(request.messages@, OslMessageRole::Assistant),
        has_prior_tool_message: any_with_role(request.messages@, OslMessageRole::Tool),
        tools_defined: request.tools matches Some(tools) && tools@.len() > 0,
    }
}

impl OslRequestSignature {
    /// Derive the empirical OSL signature directly from normalized request messages.
    pub fn from_request(request: &AnnotatedLlmRequest) -> (r: Self)
        ensures
            r == signature_of(*request),
    {
        let count: usize = request.messages.len();
        let last_message_role = if count == 0 {
            OslMessageRole::Unknown
        } else {
            OslMessageRole::from_message(&request.messages[count - 1])
        };
        let mut has_prior_assistant_message = false;
        let mut has_prior_tool_message = false;
        let mut i: usize = 0;
        while i < count
            invariant
                i <= count,
                count == request.messages.len(),
                has_prior_assistant_message == (exists|k: int|
                    0 <= k < i && role_of(#[trigger] request.messages@[k])
                        == OslMessageRole::Assistant),
                has_prior_tool_message == (exists|k: int|
                    0 <= k < i && role_of(#[trigger] request.messages@[k])
                        == OslMessageRole::Tool),
            decreases count - i,
        {
            match OslMessageRole::from_message(&request.messages[i]) {
                OslMessageRole::Assistant => {
                    has_prior_assistant_message = true;
                },
                OslMessageRole::Tool => {
                    has_prior_tool_message = true;
                },
                _ => {},
            }
            i += 1;
        }
        let tools_defined = match &request.tools {
            Some(tools) => tools.len() > 0,
            None => false,
        };
        OslRequestSignature {
            last_message_role,
            has_prior_assistant_message,
            has_prior_tool_message,
            tools_defined,
        }
    }
}

/// Scope used to select empirical OSL history.
#[derive(Debug)]
pub enum OslContextScope {
    /// Temporary run-local context keyed by the active run root UUID.
    Run {
        /// Root scope UUID for the active run.
        root_uuid: u128,
    },
    /// Persistent context for the configured agent/workflow.
    Workflow {
        /// Agent/workflow identifier.
        agent_id: String,
    },
    /// Persistent model-global context.
    Global,
}

/// Typed empirical OSL context before conversion to a stable storage key.
#[derive(Debug)]
pub struct OslContextKey {
    /// Context scope.
    pub scope: OslContextScope,
    /// Normalized model name.
    pub model: String,
    /// Message-derived request signature.
    pub signature: OslRequestSignature,
}

/// The facts of a context scope.
pub enum ScopeView {
    /// A run.
    Run(u128),
    /// A workflow.
    Workflow(Seq<char>),
    /// Everything.
    Global,
}

impl View for OslContextScope {
    type V = ScopeView;

    open spec fn view(&self) -> ScopeView {
        match self {
            OslContextScope::Run { root_uuid } => ScopeView::Run(*root_uuid),
            OslContextScope::Workflow { agent_id } => ScopeView::Workflow(agent_id@),
            OslContextScope::Global => ScopeView::Global,
        }
    }
}

/// A text with its length in bytes before it.
pub open spec fn len_prefixed(value: Seq<char>) -> Seq<char> {
    decimal(encode_utf8(value).len()) + ":"@ + value
}

/// How a scope is written in a storage key.
pub open spec fn scope_text(scope: ScopeView) -> Seq<char> {
    match scope {
        ScopeView::Run(root) => "scope=run:"@ + id_text(root),
        ScopeView::Workflow(agent) => "scope=workflow:"@ + len_prefixed(agent),
        ScopeView::Global => "scope=global"@,
    }
}

/// How a flag is written in a storage key.
pub open spec fn flag_text(flag: bool) -> Seq<char> {
    if flag {
        "1"@
    } else {
        "0"@
    }
}

/// How a signature is written in a storage key.
pub open spec fn signature_text(signature: OslRequestSignature) -> Seq<char> {
    role_text(signature.last_message_role) + "|prior_asst="@ + flag_text(
        signature.has_prior_assistant_message,
    ) + "|prior_tool="@ + flag_text(signature.has_prior_tool_message) + "|tools="@ + flag_text(
        signature.tools_defined,
    )
}

/// The storage key of a context.
pub open spec fn key_of(scope: ScopeView, model: Seq<char>, signature: OslRequestSignature) -> Seq<
    char,
> {
    scope_text(scope) + "|"@ + "model="@ + len_prefixed(model) + "|last="@ + signature_text(
        signature,
    )
}

fn len_prefixed_part(value: &str) -> (r: String)
    ensures
        r@ == len_prefixed(value@),
{
    let mut out = String::new();
    push_decimal(&mut out, value.as_bytes().len());
    proof {
        assert(out@ =~= decimal(encode_utf8(value@).len()));
    }
    out.append(":");
    out.append(value);
    out
}

fn flag_part(flag: bool) -> (r: &'static str)
    ensures
        r@ == flag_text(flag),
{
    if flag {
        "1"
    } else {
        "0"
    }
}

fn scope_part(scope: &OslContextScope) -> (r: String)
    ensures
        r@ == scope_text(scope@),
{
    match scope {
        OslContextScope::Run { root_uuid } => {
            let mut out = "scope=run:".to_owned();
            out.append(write_id(*root_uuid).as_str());
            out
        },
        OslContextScope::Workflow { agent_id } => {
            let mut out = "scope=workflow:".to_owned();
            out.append(len_prefixed_part(agent_id.as_str()).as_str());
            out
        },
        OslContextScope::Global => "scope=global".to_owned(),
    }
}

fn signature_part(signature: &OslRequestSignature) -> (r: String)
    ensures
        r@ == signature_text(*signature),
{
    let mut out = signature.last_message_role.as_key_part().to_owned();
    out.append("|prior_asst=");
    out.append(flag_part(signature.has_prior_assistant_message));
    out.append("|prior_tool=");
    out.append(flag_part(signature.has_prior_tool_message));
    out.append("|tools=");
    out.append(flag_part(signature.tools_defined));
    out
}

impl OslContextKey {
    /// Build a stable string key for in-memory maps and JSON persistence.
    pub fn storage_key(&self) -> (r: String)
        ensures
            r@ == key_of(self.scope@, self.model@, self.signature),
    {
        let mut key = scope_part(&self.scope);
        key.append("|");
        key.append("model=");
        key.append(len_prefixed_part(self.model.as_str()).as_str());
        key.append("|last=");
        key.append(signature_part(&self.signature).as_str());
        key
    }
}

/// Of two texts with their lengths before them, put before anything, the texts and what follows are
/// told apart.
proof fn lemma_len_prefixed_parted(a: Seq<char>, u: Seq<char>, b: Seq<char>, v: Seq<char>)
    requires
        len_prefixed(a) + u == len_prefixed(b) + v,
    ensures
        a == b,
        u == v,
{
    reveal_strlit(":");
    let m = encode_utf8(a).len();
    let n = encode_utf8(b).len();
    lemma_decimal_digits(m);
    lemma_decimal_digits(n);
    assert(len_prefixed(a) + u =~= decimal(m) + (":"@ + (a + u)));
    assert(len_prefixed(b) + v =~= decimal(n) + (":"@ + (b + v)));
    lemma_parted(decimal(m), ":"@ + (a + u), decimal(n), ":"@ + (b + v), ':');
    lemma_decimal_injective(m, n);
    lemma_equal_parts(":"@, a + u, ":"@, b + v);
    let s = a + u;
    if a.len() < b.len() {
        let c = b.skip(a.len() as int);
        assert(b =~= a + c) by {
            assert forall|i: int| 0 <= i < a.len() implies a[i] == b[i] by {
                assert(s[i] == a[i] && (b + v)[i] == b[i]);
            }
        }
        lemma_bytes_of_both(a, c);
        lemma_some_bytes(c);
    } else if b.len() < a.len() {
        let c = a.skip(b.len() as int);
        assert(a =~= b + c) by {
            assert forall|i: int| 0 <= i < b.len() implies a[i] == b[i] by {
                assert(s[i] == a[i] && (b + v)[i] == b[i]);
            }
        }
        lemma_bytes_of_both(b, c);
        lemma_some_bytes(c);
    }
    lemma_equal_parts(a, u, b, v);
}

/// No role is written with a bar.
proof fn lemma_role_text_plain(role: OslMessageRole)
    ensures
        !role_text(role).contains('|'),
{
    reveal_strlit("system");
    reveal_strlit("user");
    reveal_strlit("assistant");
    reveal_strlit("tool");
    reveal_strlit("unknown");
}

/// Roles are written differently.
proof fn lemma_role_texts_apart(a: OslMessageRole, b: OslMessageRole)
    requires
        role_text(a) == role_text(b),
    ensures
        a == b,
{
    reveal_strlit("system");
    reveal_strlit("user");
    reveal_strlit("assistant");
    reveal_strlit("tool");
    reveal_strlit("unknown");
    let s = role_text(a);
    let t = role_text(b);
    assert(s.len() == t.len());
    assert(s[0] == t[0]);
}

/// Flags are written with one character, and differently.
proof fn lemma_flag_texts_apart(a: bool, b: bool)
    ensures
        flag_text(a).len() == 1,
        flag_text(b).len() == 1,
        flag_text(a) == flag_text(b) ==> a == b,
{
    reveal_strlit("0");
    reveal_strlit("1");
    assert("0"@[0] != "1"@[0]);
}

/// The last flag in a signature's text.
spec fn last_flag_text(signature: OslRequestSignature) -> Seq<char> {
    "|tools="@ + flag_text(signature.tools_defined)
}

/// The last two flags in a signature's text.
spec fn last_flags_text(signature: OslRequestSignature) -> Seq<char> {
    "|prior_tool="@ + (flag_text(signature.has_prior_tool_message) + last_flag_text(signature))
}

/// What follows the role in a signature's text.
spec fn flags_text(signature: OslRequestSignature) -> Seq<char> {
    "|prior_asst="@ + (flag_text(signature.has_prior_assistant_message) + last_flags_text(
        signature,
    ))
}

proof fn lemma_signature_parts(signature: OslRequestSignature)
    ensures
        signature_text(signature) == role_text(signature.last_message_role) + flags_text(
            signature,
        ),
{
    let (role, first, second, third) = (
        role_text(signature.last_message_role),
        flag_text(signature.has_prior_assistant_message),
        flag_text(signature.has_prior_tool_message),
        flag_text(signature.tools_defined),
    );
    let (a, b, c) = ("|prior_asst="@, "|prior_tool="@, "|tools="@);
    lemma_regrouped(role, a, first);
    lemma_regrouped(role + a + first, b, second);
    lemma_regrouped(role + a + first, b + second, c + third);
    lemma_regrouped(role + a + first + b + second, c, third);
    lemma_regrouped(b, second, c + third);
    lemma_regrouped(role, a + first, last_flags_text(signature));
    lemma_regrouped(a, first, last_flags_text(signature));
}

/// Texts put together in either order are the same.
proof fn lemma_regrouped(a: Seq<char>, b: Seq<char>, c: Seq<char>)
    ensures
        a + b + c == a + (b + c),
{
    assert(a + b + c =~= a + (b + c));
}

/// Flags are written differently.
proof fn lemma_flags_apart(a: OslRequestSignature, b: OslRequestSignature)
    requires
        flags_text(a) == flags_text(b),
    ensures
        a.has_prior_assistant_message == b.has_prior_assistant_message,
        a.has_prior_tool_message == b.has_prior_tool_message,
        a.tools_defined == b.tools_defined,
{
    let (a1, b1) = (
        flag_text(a.has_prior_assistant_message),
        flag_text(b.has_prior_assistant_message),
    );
    let (a2, b2) = (flag_text(a.has_prior_tool_message), flag_text(b.has_prior_tool_message));
    lemma_flag_texts_apart(a.has_prior_assistant_message, b.has_prior_assistant_message);
    lemma_flag_texts_apart(a.has_prior_tool_message, b.has_prior_tool_message);
    lemma_flag_texts_apart(a.tools_defined, b.tools_defined);
    lemma_equal_parts(
        "|prior_asst="@,
        a1 + last_flags_text(a),
        "|prior_asst="@,
        b1 + last_flags_text(b),
    );
    lemma_equal_parts(a1, last_flags_text(a), b1, last_flags_text(b));
    lemma_equal_parts(
        "|prior_tool="@,
        a2 + last_flag_text(a),
        "|prior_tool="@,
        b2 + last_flag_text(b),
    );
    lemma_equal_parts(a2, last_flag_text(a), b2, last_flag_text(b));
    lemma_equal_parts(
        "|tools="@,
        flag_text(a.tools_defined),
        "|tools="@,
        flag_text(b.tools_defined),
    );
}

/// Signatures are written differently.
proof fn lemma_signature_texts_apart(a: OslRequestSignature, b: OslRequestSignature)
    requires
        signature_text(a) == signature_text(b),
    ensures
        a == b,
{
    let x = role_text(a.last_message_role);
    let y = role_text(b.last_message_role);
    lemma_signature_parts(a);
    lemma_signature_parts(b);
    lemma_role_text_plain(a.last_message_role);
    lemma_role_text_plain(b.last_message_role);
    assert("|prior_asst="@.len() > 0 && "|prior_asst="@[0] == '|') by {
        reveal_strlit("|prior_asst=");
    }
    lemma_parted(x, flags_text(a), y, flags_text(b), '|');
    lemma_role_texts_apart(a.last_message_role, b.last_message_role);
    lemma_flags_apart(a, b);
}

/// What follows the scope in a storage key.
spec fn model_text(model: Seq<char>, signature: OslRequestSignature) -> Seq<char> {
    "|"@ + ("model="@ + (len_prefixed(model) + ("|last="@ + signature_text(signature))))
}

proof fn lemma_key_parts(scope: ScopeView, model: Seq<char>, signature: OslRequestSignature)
    ensures
        key_of(scope, model, signature) == scope_text(scope) + model_text(model, signature),
{
    let (head, name, tail) = (scope_text(scope), len_prefixed(model), signature_text(signature));
    let (a, b, c) = ("|"@, "model="@, "|last="@);
    lemma_regrouped(head + a + b + name, c, tail);
    lemma_regrouped(head + a + b, name, c + tail);
    lemma_regrouped(head + a, b, name + (c + tail));
    lemma_regrouped(head, a, b + (name + (c + tail)));
}

proof fn lemma_model_texts_apart(
    model_a: Seq<char>,
    signature_a: OslRequestSignature,
    model_b: Seq<char>,
    signature_b: OslRequestSignature,
)
    requires
        model_text(model_a, signature_a) == model_text(model_b, signature_b),
    ensures
        model_a == model_b,
        signature_a == signature_b,
{
    let tail_a = "|last="@ + signature_text(signature_a);
    let tail_b = "|last="@ + signature_text(signature_b);
    let rest_a = len_prefixed(model_a) + tail_a;
    let rest_b = len_prefixed(model_b) + tail_b;
    lemma_equal_parts("|"@, "model="@ + rest_a, "|"@, "model="@ + rest_b);
    lemma_equal_parts("model="@, rest_a, "model="@, rest_b);
    lemma_len_prefixed_parted(model_a, tail_a, model_b, tail_b);
    lemma_equal_parts(
        "|last="@,
        signature_text(signature_a),
        "|last="@,
        signature_text(signature_b),
    );
    lemma_signature_texts_apart(signature_a, signature_b);
}

/// Different contexts have different storage keys, whatever the agents and models are called.
pub proof fn law_storage_keys_apart(
    scope_a: ScopeView,
    model_a: Seq<char>,
    signature_a: OslRequestSignature,
    scope_b: ScopeView,
    model_b: Seq<char>,
    signature_b: OslRequestSignature,
)
    requires
        key_of(scope_a, model_a, signature_a) == key_of(scope_b, model_b, signature_b),
    ensures
        scope_a == scope_b,
        model_a == model_b,
        signature_a == signature_b,
{
    reveal_strlit("scope=run:");
    reveal_strlit("scope=workflow:");
    reveal_strlit("scope=global");
    let rest_a = model_text(model_a, signature_a);
    let rest_b = model_text(model_b, signature_b);
    lemma_key_parts(scope_a, model_a, signature_a);
    lemma_key_parts(scope_b, model_b, signature_b);
    let key = scope_text(scope_a) + rest_a;
    assert(key[6] == scope_text(scope_a)[6]);
    assert((scope_text(scope_b) + rest_b)[6] == scope_text(scope_b)[6]);
    match (scope_a, scope_b) {
        (ScopeView::Run(a), ScopeView::Run(b)) => {
            lemma_id_text_len(a);
            lemma_id_text_len(b);
            lemma_equal_parts(scope_text(scope_a), rest_a, scope_text(scope_b), rest_b);
            lemma_equal_parts("scope=run:"@, id_text(a), "scope=run:"@, id_text(b));
            law_id_texts_apart(a, b);
        },
        (ScopeView::Workflow(a), ScopeView::Workflow(b)) => {
            let start = "scope=workflow:"@;
            assert(key =~= start + (len_prefixed(a) + rest_a));
            assert(scope_text(scope_b) + rest_b =~= start + (len_prefixed(b) + rest_b));
            lemma_equal_parts(start, len_prefixed(a) + rest_a, start, len_prefixed(b) + rest_b);
            lemma_len_prefixed_parted(a, rest_a, b, rest_b);
        },
        (ScopeView::Global, ScopeView::Global) => {
            lemma_equal_parts(scope_text(scope_a), rest_a, scope_text(scope_b), rest_b);
        },
        _ => {},
    }
    lemma_model_texts_apart(model_a, signature_a, model_b, signature_b);
}

/// Retained empirical output-token samples for one context.
#[derive(Debug)]
pub struct OslContextStats {
    /// Recent observed completion token counts.
    pub samples: VecDeque<u32>,
    /// Last observation timestamp for pruning.
    pub last_updated_at: Option<Timestamp>,
}

/// The facts of a context.
#[verifier::ext_equal]
pub struct StatsView {
    /// Recent counts.
    pub samples: Seq<u32>,
    /// Last observation.
    pub updated: Option<Timestamp>,
}

impl View for OslContextStats {
    type V = StatsView;

    open spec fn view(&self) -> StatsView {
        StatsView { samples: self.samples@, updated: self.last_updated_at }
    }
}

impl Aged for OslContextStats {
    open spec fn updated(self) -> Option<Timestamp> {
        self.last_updated_at
    }

    open spec fn seen(self) -> nat {
        0
    }

    fn last_updated(&self) -> (r: Option<Timestamp>) {
        self.last_updated_at
    }

    fn weight(&self) -> (r: usize) {
        0
    }
}

/// A context without samples.
pub open spec fn fresh_stats() -> StatsView {
    StatsView { samples: Seq::empty(), updated: None }
}

impl Default for OslContextStats {
    fn default() -> (r: Self)
        ensures
            r@ == fresh_stats(),
    {
        OslContextStats { samples: VecDeque::new(), last_updated_at: None }
    }
}

/// The last `limit` samples.
pub open spec fn last_samples(samples: Seq<u32>, limit: int) -> Seq<u32> {
    if samples.len() > limit {
        samples.skip(samples.len() - limit)
    } else {
        samples
    }
}

/// A context after one more sample, of which it keeps the last `limit`.
pub open spec fn sample_observed(
    stats: StatsView,
    output_tokens: u32,
    at: Timestamp,
    limit: int,
) -> StatsView {
    StatsView {
        samples: last_samples(stats.samples.push(output_tokens), limit),
        updated: Some(at),
    }
}

/// The nearest-rank quantile of samples, when there are any and the percentile is one.
pub open spec fn sample_quantile(samples: Seq<u32>, percentile: u32) -> Option<u32> {
    if 1 <= percentile <= 100 && samples.len() > 0 {
        Some(quantile(samples, percentile as int))
    } else {
        None
    }
}

/// Whether samples are many and stable enough: their upper quantile is no more than a multiple of
/// their lower one.
pub open spec fn confident(samples: Seq<u32>, min_samples: int) -> bool {
    &&& samples.len() >= min_samples
    &&& samples.len() > 0
    &&& quantile(samples, OSL_SPREAD_HIGH_PERCENTILE as int) <= OSL_MAX_SPREAD_MULTIPLIER * (
    if quantile(samples, OSL_SPREAD_LOW_PERCENTILE as int) == 0 {
        1
    } else {
        quantile(samples, OSL_SPREAD_LOW_PERCENTILE as int) as int
    })
}

/// The prediction from samples, when they are many and stable enough.
pub open spec fn predicted_from(samples: Seq<u32>, min_samples: int) -> Option<u32> {
    if confident(samples, min_samples) {
        Some(quantile(samples, OSL_PREDICTION_PERCENTILE as int))
    } else {
        None
    }
}

impl OslContextStats {
    /// Record one exact observed output-token sample using the default retention limit.
    pub fn observe(&mut self, output_tokens: u32, observed_at: Timestamp)
        ensures
            final(self)@ == sample_observed(
                old(self)@,
                output_tokens,
                observed_at,
                MAX_SAMPLES_PER_CONTEXT as int,
            ),
    {
        self.observe_with_limit(output_tokens, observed_at, MAX_SAMPLES_PER_CONTEXT);
    }

    /// Record one exact observed output-token sample using a caller-provided retention limit.
    pub fn observe_with_limit(
        &mut self,
        output_tokens: u32,
        observed_at: Timestamp,
        max_samples: usize,
    )
        ensures
            final(self)@ == sample_observed(
                old(self)@,
                output_tokens,
                observed_at,
                max_samples as int,
            ),
    {
        self.last_updated_at = Some(observed_at);
        if max_samples == 0 {
            self.samples.clear();
            proof {
                assert(self.samples@ =~= last_samples(old(self)@.samples.push(output_tokens), 0));
            }
            return;
        }
        self.samples.push_back(output_tokens);
        let ghost all = self.samples@;
        while self.samples.len() > max_samples
            invariant
                self.samples@.len() <= all.len(),
                self.samples@ == all.skip(all.len() - self.samples@.len()),
                all.len() > max_samples ==> self.samples@.len() >= max_samples,
                all.len() <= max_samples ==> self.samples@.len() == all.len(),
                self.last_updated_at == Some(observed_at),
            decreases self.samples.len(),
        {
            let _ = self.samples.pop_front();
            proof {
                assert(self.samples@ =~= all.skip(all.len() - self.samples@.len()));
            }
        }
        proof {
            assert(all.skip(0) =~= all);
            assert(self.samples@ =~= last_samples(all, max_samples as int));
        }
    }

    /// Return the number of retained samples.
    pub fn sample_count(&self) -> (r: usize)
        ensures
            r == self@.samples.len(),
    {
        self.samples.len()
    }

    /// Compute the nearest-rank empirical quantile over retained samples.
    ///
    /// Returns `None` for empty samples or percentiles outside `1..=100`.
    pub fn nearest_rank_quantile(&self, percentile: u32) -> (r: Option<u32>)
        ensures
            r == sample_quantile(self@.samples, percentile),
    {
        if percentile < 1 || percentile > 100 || self.samples.len() == 0 {
            return None;
        }
        let mut samples: Vec<u32> = Vec::new();
        let mut i: usize = 0;
        while i < self.samples.len()
            invariant
                i <= self.samples.len(),
                samples@ == self.samples@.take(i as int),
            decreases self.samples.len() - i,
        {
            samples.push(self.samples[i]);
            i += 1;
        }
        proof {
            assert(samples@ =~= self.samples@);
        }
        Some(nearest_rank_quantile(&samples, percentile))
    }

    /// Whether retained samples are sufficient and stable enough for OSL emission.
    pub fn is_confident(&self, min_samples: usize) -> (r: bool)
        ensures
            r == confident(self@.samples, min_samples as int),
    {
        if self.samples.len() < min_samples {
            return false;
        }
        let p50: u32 = match self.nearest_rank_quantile(OSL_SPREAD_LOW_PERCENTILE) {
            Some(p50) => p50,
            None => {
                return false;
            },
        };
        let p90: u32 = match self.nearest_rank_quantile(OSL_SPREAD_HIGH_PERCENTILE) {
            Some(p90) => p90,
            None => {
                return false;
            },
        };
        let low: u64 = if p50 == 0 {
            1
        } else {
            p50 as u64
        };
        let spread: u64 = OSL_MAX_SPREAD_MULTIPLIER as u64;
        assert(spread * low <= 4 * u32::MAX) by (nonlinear_arith)
            requires
                spread == 4,
                low <= u32::MAX,
        ;
        p90 as u64 <= spread * low
    }

    /// Return the p85 empirical OSL prediction when confidence passes.
    pub fn predict_p85(&self, min_samples: usize) -> (r: Option<u32>)
        ensures
            r == predicted_from(self@.samples, min_samples as int),
    {
        if self.is_confident(min_samples) {
            self.nearest_rank_quantile(OSL_PREDICTION_PERCENTILE)
        } else {
            None
        }
    }
}

/// Empirical OSL learner state.
#[derive(Debug)]
pub struct OslEmpiricalState {
    /// Agent/workflow identifier this state belongs to.
    pub agent_id: String,
    /// Persistent context samples keyed by [`OslContextKey::storage_key`].
    pub contexts: KeyedTable<OslContextStats>,
    /// Temporary run-local samples. These are not persisted.
    pub run_contexts: KeyedTable<OslContextStats>,
}

/// Contexts after one more sample in one of them.
pub open spec fn recorded(
    contexts: Map<Seq<char>, StatsView>,
    key: Seq<char>,
    output_tokens: u32,
    at: Timestamp,
) -> Map<Seq<char>, StatsView> {
    let stats = if contexts.contains_key(key) {
        contexts[key]
    } else {
        fresh_stats()
    };
    contexts.insert(
        key,
        sample_observed(stats, output_tokens, at, MAX_SAMPLES_PER_CONTEXT as int),
    )
}

/// Whether `after` are the `max` freshest of contexts with the facts `grown`.
pub open spec fn bounded_from(
    grown: Map<Seq<char>, StatsView>,
    after: Map<Seq<char>, OslContextStats>,
    max: nat,
) -> bool {
    exists|before: Map<Seq<char>, OslContextStats>|
        #![trigger kept_freshest(before, after, max)]
        views(before) == grown && kept_freshest(before, after, max)
}

/// Whether `after` are the persistent contexts `before` with a sample added to one of them, as far as
/// they fit.
pub open spec fn context_observed(
    before: Map<Seq<char>, OslContextStats>,
    key: Seq<char>,
    output_tokens: u32,
    at: Timestamp,
    after: Map<Seq<char>, OslContextStats>,
) -> bool {
    bounded_from(
        recorded(views(before), key, output_tokens, at),
        after,
        MAX_PERSISTENT_CONTEXTS as nat,
    )
}

fn record(
    contexts: &mut KeyedTable<OslContextStats>,
    key: String,
    output_tokens: u32,
    observed_at: Timestamp,
)
    ensures
        views(final(contexts)@) == recorded(
            views(old(contexts)@),
            key@,
            output_tokens,
            observed_at,
        ),
{
    let mut stats = match contexts.remove(key.as_str()) {
        Some(stats) => stats,
        None => OslContextStats::default(),
    };
    stats.observe(output_tokens, observed_at);
    contexts.insert(key, stats);
    proof {
        assert(views(contexts@) =~= recorded(
            views(old(contexts)@),
            key@,
            output_tokens,
            observed_at,
        ));
    }
}

/// What a completed call tells of output lengths.
pub struct CallSample {
    /// Output tokens.
    pub output_tokens: u32,
    /// When they were observed.
    pub at: Timestamp,
    /// Requested model.
    pub model: Seq<char>,
    /// Signature of the request.
    pub signature: OslRequestSignature,
}

/// The model that a sample is kept under: the requested one, else the recorded one.
pub open spec fn sample_model<S: Scalar>(call: CallRecord<S>) -> Option<Seq<char>> {
    match call.annotated_request {
        Some(request) => match request.model {
            Some(model) => Some(model@),
            None => match call.model_name {
                Some(model) => Some(model@),
                None => None,
            },
        },
        None => None,
    }
}

/// The sample of a call: an LLM call that was not cut short, with a token count, a request and a
/// model.
pub open spec fn call_sample<S: Scalar>(
    call: CallRecord<S>,
    run_ended_at: Option<Timestamp>,
    now: Timestamp,
) -> Option<CallSample> {
    match (call.kind, call.output_tokens, call.annotated_request, sample_model(call)) {
        (CallKind::Llm, Some(output_tokens), Some(request), Some(model)) => if call.finish_reason
            == Some(FinishReason::Length) {
            None
        } else {
            Some(
                CallSample {
                    output_tokens,
                    at: match (call.ended_at, run_ended_at) {
                        (Some(ended_at), _) => ended_at,
                        (None, Some(ended_at)) => ended_at,
                        (None, None) => now,
                    },
                    model,
                    signature: signature_of(*request),
                },
            )
        },
        _ => None,
    }
}

/// Whether `after` is `before` with the sample of a completed call in the own context of a run, and
/// `sampled` tells whether the call has one. No more run contexts are kept than fit.
pub open spec fn run_call_observed<S: Scalar>(
    before: OslEmpiricalState,
    root_uuid: u128,
    call: CallRecord<S>,
    now: Timestamp,
    after: OslEmpiricalState,
    sampled: bool,
) -> bool {
    &&& after == (OslEmpiricalState { run_contexts: after.run_contexts, ..before })
    &&& sampled == (call_sample(call, None, now) is Some)
    &&& match call_sample(call, None, now) {
        Some(sample) => bounded_from(
            recorded(
                views(before.run_contexts@),
                key_of(ScopeView::Run(root_uuid), sample.model, sample.signature),
                sample.output_tokens,
                sample.at,
            ),
            after.run_contexts@,
            MAX_RUN_CONTEXTS as nat,
        ),
        None => after.run_contexts == before.run_contexts,
    }
}

/// A sample of a completed call, with the model it is kept under.
pub struct CompletedCallSample {
    output_tokens: u32,
    observed_at: Timestamp,
    model: String,
    signature: OslRequestSignature,
}

impl CompletedCallSample {
    /// What the sample tells.
    pub closed spec fn facts(self) -> CallSample {
        CallSample {
            output_tokens: self.output_tokens,
            at: self.observed_at,
            model: self.model@,
            signature: self.signature,
        }
    }

    /// The key of the sample's context in a scope.
    fn key_in(&self, scope: OslContextScope) -> (r: OslContextKey)
        ensures
            r.scope == scope,
            r.model@ == self.model@,
            r.signature == self.signature,
    {
        OslContextKey { scope, model: self.model.clone(), signature: self.signature }
    }
}

/// Takes the sample of a completed call, when it has one.
///
/// `now` is when a call without an end, in a run without one, is taken to be observed.
pub fn completed_call_sample<S: Scalar>(
    call: &CallRecord<S>,
    run_ended_at: Option<Timestamp>,
    now: Timestamp,
) -> (r: Option<CompletedCallSample>)
    ensures
        match r {
            Some(sample) => call_sample(*call, run_ended_at, now) == Some(sample.facts()),
            None => call_sample(*call, run_ended_at, now) is None,
        },
{
    if call.kind != CallKind::Llm {
        return None;
    }
    if let Some(FinishReason::Length) = &call.finish_reason {
        return None;
    }
    let output_tokens: u32 = match call.output_tokens {
        Some(output_tokens) => output_tokens,
        None => {
            return None;
        },
    };
    let request = match &call.annotated_request {
        Some(request) => request,
        None => {
            return None;
        },
    };
    let model = match (&request.model, &call.model_name) {
        (Some(model), _) => model.clone(),
        (None, Some(model)) => model.clone(),
        (None, None) => {
            return None;
        },
    };
    let signature = OslRequestSignature::from_request(request);
    let observed_at = match (call.ended_at, run_ended_at) {
        (Some(ended_at), _) => ended_at,
        (None, Some(ended_at)) => ended_at,
        (None, None) => now,
    };
    Some(CompletedCallSample { output_tokens, observed_at, model, signature })
}

/// Outcome of an empirical OSL lookup.
#[derive(Debug)]
pub struct OslPredictionOutcome {
    /// Where the prediction comes from: `run_local`, `workflow`, `global` or `none`.
    pub source: &'static str,
    /// The prediction, when the samples are many and stable enough.
    pub emitted_osl: Option<u32>,
    /// Whether the samples are many and stable enough.
    pub confidence_passed: bool,
    /// How many samples there are, when there is a context.
    pub sample_count: Option<usize>,
}

/// The facts of the outcome of a lookup.
pub struct OutcomeView {
    /// Where the prediction comes from.
    pub source: Seq<char>,
    /// The prediction.
    pub emitted_osl: Option<u32>,
    /// Whether the samples are many and stable enough.
    pub confidence_passed: bool,
    /// How many samples there are.
    pub sample_count: Option<nat>,
}

impl View for OslPredictionOutcome {
    type V = OutcomeView;

    open spec fn view(&self) -> OutcomeView {
        OutcomeView {
            source: self.source@,
            emitted_osl: self.emitted_osl,
            confidence_passed: self.confidence_passed,
            sample_count: match self.sample_count {
                Some(n) => Some(n as nat),
                None => None,
            },
        }
    }
}

/// A context that a lookup considers: where it is from, its samples, and how many it needs.
pub struct Candidate {
    /// Where the context is from.
    pub source: Seq<char>,
    /// Its samples.
    pub samples: Seq<u32>,
    /// How many samples it needs.
    pub min_samples: int,
}

/// The contexts that a lookup considers, in order: the run's own, the workflow's, everyone's.
pub open spec fn candidate_of(
    contexts: Map<Seq<char>, StatsView>,
    scope: ScopeView,
    model: Seq<char>,
    signature: OslRequestSignature,
    source: Seq<char>,
    min_samples: int,
) -> Option<Candidate> {
    let key = key_of(scope, model, signature);
    if contexts.contains_key(key) {
        Some(Candidate { source, samples: contexts[key].samples, min_samples })
    } else {
        None
    }
}

/// What a lookup reports of a context.
pub open spec fn reported(candidate: Candidate) -> OutcomeView {
    OutcomeView {
        source: candidate.source,
        emitted_osl: predicted_from(candidate.samples, candidate.min_samples),
        confidence_passed: confident(candidate.samples, candidate.min_samples),
        sample_count: Some(candidate.samples.len()),
    }
}

/// Whether a context is there and its samples are many and stable enough.
pub open spec fn trusted(candidate: Option<Candidate>) -> bool {
    candidate matches Some(c) && confident(c.samples, c.min_samples)
}

/// What a lookup reports of its contexts: the first whose samples are many and stable enough, else
/// the first that is there, else none.
pub open spec fn outcome_of(
    run: Option<Candidate>,
    workflow: Option<Candidate>,
    global: Option<Candidate>,
) -> OutcomeView {
    if trusted(run) {
        reported(run->0)
    } else if trusted(workflow) {
        reported(workflow->0)
    } else if trusted(global) {
        reported(global->0)
    } else if run is Some {
        reported(run->0)
    } else if workflow is Some {
        reported(workflow->0)
    } else if global is Some {
        reported(global->0)
    } else {
        OutcomeView {
            source: "none"@,
            emitted_osl: None,
            confidence_passed: false,
            sample_count: None,
        }
    }
}

/// The prediction from persistent contexts: the workflow's, else everyone's.
pub open spec fn persistent_prediction(
    contexts: Map<Seq<char>, StatsView>,
    agent_id: Seq<char>,
    model: Seq<char>,
    signature: OslRequestSignature,
) -> Option<u32> {
    let workflow = key_of(ScopeView::Workflow(agent_id), model, signature);
    let global = key_of(ScopeView::Global, model, signature);
    if contexts.contains_key(workflow) && confident(
        contexts[workflow].samples,
        PERSISTENT_MIN_SAMPLES as int,
    ) {
        predicted_from(contexts[workflow].samples, PERSISTENT_MIN_SAMPLES as int)
    } else if contexts.contains_key(global) {
        predicted_from(contexts[global].samples, PERSISTENT_MIN_SAMPLES as int)
    } else {
        None
    }
}

fn report(source: &'static str, stats: &OslContextStats, min_samples: usize) -> (r:
    OslPredictionOutcome)
    ensures
        r@ == reported(
            Candidate {
                source: source@,
                samples: stats@.samples,
                min_samples: min_samples as int,
            },
        ),
{
    OslPredictionOutcome {
        source,
        emitted_osl: stats.predict_p85(min_samples),
        confidence_passed: stats.is_confident(min_samples),
        sample_count: Some(stats.sample_count()),
    }
}

impl OslEmpiricalState {
    /// Whether nothing was learned yet.
    pub open spec fn fresh(self) -> bool {
        &&& self.contexts@ == Map::<Seq<char>, OslContextStats>::empty()
        &&& self.run_contexts@ == Map::<Seq<char>, OslContextStats>::empty()
    }

    /// What a lookup reports.
    pub open spec fn predicted(
        self,
        root: Option<u128>,
        agent_id: Seq<char>,
        model: Seq<char>,
        signature: OslRequestSignature,
    ) -> OutcomeView {
        outcome_of(
            match root {
                Some(root_uuid) => candidate_of(
                    views(self.run_contexts@),
                    ScopeView::Run(root_uuid),
                    model,
                    signature,
                    "run_local"@,
                    RUN_MIN_SAMPLES as int,
                ),
                None => None,
            },
            candidate_of(
                views(self.contexts@),
                ScopeView::Workflow(agent_id),
                model,
                signature,
                "workflow"@,
                PERSISTENT_MIN_SAMPLES as int,
            ),
            candidate_of(
                views(self.contexts@),
                ScopeView::Global,
                model,
                signature,
                "global"@,
                PERSISTENT_MIN_SAMPLES as int,
            ),
        )
    }

    /// Create empty empirical OSL state for an agent/workflow.
    pub fn new(agent_id: String) -> (r: Self)
        ensures
            r.agent_id == agent_id,
            r.fresh(),
    {
        OslEmpiricalState {
            agent_id,
            contexts: KeyedTable::new(),
            run_contexts: KeyedTable::new(),
        }
    }

    /// Adds a sample to a persistent context, and drops the stalest contexts that no longer fit.
    pub fn observe_context(
        &mut self,
        key: OslContextKey,
        output_tokens: u32,
        observed_at: Timestamp,
    )
        ensures
            *final(self) == (OslEmpiricalState { contexts: final(self).contexts, ..*old(self) }),
            context_observed(
                old(self).contexts@,
                key_of(key.scope@, key.model@, key.signature),
                output_tokens,
                observed_at,
                final(self).contexts@,
            ),
    {
        record(&mut self.contexts, key.storage_key(), output_tokens, observed_at);
        let ghost grown = self.contexts@;
        let _ = self.contexts.keep_freshest(MAX_PERSISTENT_CONTEXTS);
        proof {
            assert(kept_freshest(grown, self.contexts@, MAX_PERSISTENT_CONTEXTS as nat));
        }
    }

    /// Adds the sample of a completed call to a run's own context, when the call has one.
    ///
    /// `now` is when a call without an end is taken to be observed.
    pub fn observe_run_call_at<S: Scalar>(
        &mut self,
        root_uuid: u128,
        call: &CallRecord<S>,
        now: Timestamp,
    ) -> (r: bool)
        ensures
            run_call_observed(*old(self), root_uuid, *call, now, *final(self), r),
    {
        let sample = match completed_call_sample(call, None, now) {
            Some(sample) => sample,
            None => {
                return false;
            },
        };
        let key = sample.key_in(OslContextScope::Run { root_uuid }).storage_key();
        record(&mut self.run_contexts, key, sample.output_tokens, sample.observed_at);
        let ghost grown = self.run_contexts@;
        let _ = self.run_contexts.keep_freshest(MAX_RUN_CONTEXTS);
        proof {
            assert(kept_freshest(grown, self.run_contexts@, MAX_RUN_CONTEXTS as nat));
        }
        true
    }

    /// Adds the sample of a completed call to a run's own context, when the call has one.
    pub fn observe_run_call<S: Scalar>(&mut self, root_uuid: u128, call: &CallRecord<S>) -> (r:
        bool)
        ensures
            exists|now: Timestamp| #[trigger]
                run_call_observed(*old(self), root_uuid, *call, now, *final(self), r),
    {
        let now = match call.ended_at {
            Some(ended_at) => ended_at,
            None => Timestamp::now(),
        };
        self.observe_run_call_at(root_uuid, call, now)
    }

    /// Drops the contexts of a run.
    pub fn clear_run_contexts(&mut self, root_uuid: u128)
        ensures
            final(self).run_contexts@ == without_prefix(
                old(self).run_contexts@,
                run_prefix(root_uuid),
            ),
            *final(self) == (OslEmpiricalState {
                run_contexts: final(self).run_contexts,
                ..*old(self)
            }),
    {
        let mut prefix = "scope=run:".to_owned();
        prefix.append(write_id(root_uuid).as_str());
        prefix.append("|");
        self.run_contexts.remove_prefixed(prefix.as_str());
    }

    /// Predict empirical OSL from the run's own history, then workflow history, then global history.
    pub fn predict(
        &self,
        root_uuid: Option<u128>,
        agent_id: &str,
        model: &str,
        signature: OslRequestSignature,
    ) -> (r: OslPredictionOutcome)
        ensures
            r@ == self.predicted(root_uuid, agent_id@, model@, signature),
    {
        let run = match root_uuid {
            Some(root_uuid) => self.run_contexts.get(
                OslContextKey {
                    scope: OslContextScope::Run { root_uuid },
                    model: model.to_owned(),
                    signature,
                }.storage_key().as_str(),
            ),
            None => None,
        };
        let workflow = self.contexts.get(
            OslContextKey {
                scope: OslContextScope::Workflow { agent_id: agent_id.to_owned() },
                model: model.to_owned(),
                signature,
            }.storage_key().as_str(),
        );
        let global = self.contexts.get(
            OslContextKey {
                scope: OslContextScope::Global,
                model: model.to_owned(),
                signature,
            }.storage_key().as_str(),
        );
        if let Some(stats) = run {
            if stats.is_confident(RUN_MIN_SAMPLES) {
                return report("run_local", stats, RUN_MIN_SAMPLES);
            }
        }
        if let Some(stats) = workflow {
            if stats.is_confident(PERSISTENT_MIN_SAMPLES) {
                return report("workflow", stats, PERSISTENT_MIN_SAMPLES);
            }
        }
        if let Some(stats) = global {
            if stats.is_confident(PERSISTENT_MIN_SAMPLES) {
                return report("global", stats, PERSISTENT_MIN_SAMPLES);
            }
        }
        if let Some(stats) = run {
            report("run_local", stats, RUN_MIN_SAMPLES)
        } else if let Some(stats) = workflow {
            report("workflow", stats, PERSISTENT_MIN_SAMPLES)
        } else if let Some(stats) = global {
            report("global", stats, PERSISTENT_MIN_SAMPLES)
        } else {
            OslPredictionOutcome {
                source: "none",
                emitted_osl: None,
                confidence_passed: false,
                sample_count: None,
            }
        }
    }

    /// Predict persistent empirical OSL from workflow history, then global history.
    pub fn predict_persistent(
        &self,
        agent_id: &str,
        model: &str,
        signature: OslRequestSignature,
    ) -> (r: Option<u32>)
        ensures
            r == persistent_prediction(views(self.contexts@), agent_id@, model@, signature),
    {
        let workflow_key = OslContextKey {
            scope: OslContextScope::Workflow { agent_id: agent_id.to_owned() },
            model: model.to_owned(),
            signature,
        }.storage_key();
        if let Some(stats) = self.contexts.get(workflow_key.as_str()) {
            if let Some(osl) = stats.predict_p85(PERSISTENT_MIN_SAMPLES) {
                return Some(osl);
            }
        }
        let global_key = OslContextKey {
            scope: OslContextScope::Global,
            model: model.to_owned(),
            signature,
        }.storage_key();
        match self.contexts.get(global_key.as_str()) {
            Some(stats) => stats.predict_p85(PERSISTENT_MIN_SAMPLES),
            None => None,
        }
    }
}

/// How the storage keys of a run's own contexts begin.
pub open spec fn run_prefix(root_uuid: u128) -> Seq<char> {
    "scope=run:"@ + id_text(root_uuid) + "|"@
}

/// Without a run, a lookup gives the prediction from persistent contexts.
pub proof fn law_lookup_without_run_is_persistent(
    state: OslEmpiricalState,
    agent_id: Seq<char>,
    model: Seq<char>,
    signature: OslRequestSignature,
)
    ensures
        state.predicted(None, agent_id, model, signature).emitted_osl == persistent_prediction(
            views(state.contexts@),
            agent_id,
            model,
            signature,
        ),
{
}

/// A lookup gives a prediction exactly when it reports that confidence passed, and one that passed
/// has a context with samples.
pub proof fn law_predictions_are_confident(
    state: OslEmpiricalState,
    root: Option<u128>,
    agent_id: Seq<char>,
    model: Seq<char>,
    signature: OslRequestSignature,
)
    ensures
        ({
            let outcome = state.predicted(root, agent_id, model, signature);
            &&& outcome.emitted_osl is Some <==> outcome.confidence_passed
            &&& outcome.confidence_passed ==> outcome.sample_count is Some
                && outcome.sample_count->0 > 0
        }),
{
}

/// Clearing a run drops its contexts and no others.
pub proof fn law_clearing_is_exact(
    root_uuid: u128,
    scope: ScopeView,
    model: Seq<char>,
    signature: OslRequestSignature,
)
    ensures
        run_prefix(root_uuid).is_prefix_of(key_of(scope, model, signature)) <==> scope
            == ScopeView::Run(root_uuid),
{
    reveal_strlit("scope=run:");
    reveal_strlit("scope=workflow:");
    reveal_strlit("scope=global");
    reveal_strlit("|");
    let key = key_of(scope, model, signature);
    let prefix = run_prefix(root_uuid);
    let rest = model_text(model, signature);
    lemma_key_parts(scope, model, signature);
    lemma_id_text_len(root_uuid);
    assert(key[6] == scope_text(scope)[6]);
    assert(prefix[6] == 'r');
    match scope {
        ScopeView::Run(other) => {
            lemma_id_text_len(other);
            if other == root_uuid {
                assert(prefix =~= key.take(prefix.len() as int));
            }
            if prefix.is_prefix_of(key) {
                assert(id_text(root_uuid) =~= id_text(other)) by {
                    assert forall|i: int| 0 <= i < 36 implies id_text(root_uuid)[i] == id_text(
                        other,
                    )[i] by {
                        assert(prefix[i + 10] == id_text(root_uuid)[i]);
                        assert(key[i + 10] == id_text(other)[i]);
                        assert(key.take(prefix.len() as int)[i + 10] == key[i + 10]);
                    }
                }
                law_id_texts_apart(root_uuid, other);
            }
        },
        _ => {
            if prefix.is_prefix_of(key) {
                assert(prefix[6] == key.take(prefix.len() as int)[6]);
            }
        },
    }
}

/// The output-token limit that a request sets.
pub open spec fn request_limit(request: AnnotatedLlmRequest) -> Option<u64> {
    match request.params {
        Some(params) if params.max_tokens is Some => params.max_tokens,
        _ => request.max_output_tokens,
    }
}

/// A prediction held to the limit that a request sets.
pub open spec fn capped_to_request(predicted: u32, request: AnnotatedLlmRequest) -> u32 {
    match request_limit(request) {
        Some(limit) if limit < predicted => limit as u32,
        _ => predicted,
    }
}

/// Apply an explicit request output-token cap to an empirical OSL prediction.
pub fn cap_osl_to_request_limit(predicted_osl: u32, request: &AnnotatedLlmRequest) -> (r: u32)
    ensures
        r == capped_to_request(predicted_osl, *request),
{
    let own: Option<u64> = match &request.params {
        Some(params) => params.max_tokens,
        None => None,
    };
    let limit: Option<u64> = match own {
        Some(limit) => Some(limit),
        None => request.max_output_tokens,
    };
    match limit {
        Some(limit) => if limit < predicted_osl as u64 {
            limit as u32
        } else {
            predicted_osl
        },
        None => predicted_osl,
    }
}

/// A capped prediction exceeds neither the prediction nor the limit.
pub proof fn law_cap_holds(predicted: u32, request: AnnotatedLlmRequest)
    ensures
        capped_to_request(predicted, request) <= predicted,
        request_limit(request) matches Some(limit) ==> capped_to_request(predicted, request)
            <= limit,
{
}

/// Learner that stores empirical output-token samples from completed runs.
pub struct OslEmpiricalLearner {
    agent_id: String,
}

/// Whether `after` are the persistent contexts `before` with the sample of a call, if it has one,
/// added to the workflow's context and then to everyone's.
pub open spec fn call_learned<S: Scalar>(
    before: Map<Seq<char>, OslContextStats>,
    agent: Seq<char>,
    call: CallRecord<S>,
    run_ended_at: Option<Timestamp>,
    now: Timestamp,
    after: Map<Seq<char>, OslContextStats>,
) -> bool {
    match call_sample(call, run_ended_at, now) {
        Some(sample) => exists|between: Map<Seq<char>, OslContextStats>| #[trigger]
            context_observed(
                before,
                key_of(ScopeView::Workflow(agent), sample.model, sample.signature),
                sample.output_tokens,
                sample.at,
                between,
            ) && context_observed(
                between,
                key_of(ScopeView::Global, sample.model, sample.signature),
                sample.output_tokens,
                sample.at,
                after,
            ),
        None => after == before,
    }
}

/// Whether the persistent contexts `steps` follow from one another by learning from calls, one by
/// one.
pub open spec fn calls_learned<S: Scalar>(
    steps: Seq<Map<Seq<char>, OslContextStats>>,
    agent: Seq<char>,
    calls: Seq<CallRecord<S>>,
    run_ended_at: Option<Timestamp>,
    now: Timestamp,
) -> bool {
    &&& steps.len() == calls.len() + 1
    &&& forall|i: int|
        0 <= i < calls.len() ==> call_learned(
            steps[i],
            agent,
            #[trigger] calls[i],
            run_ended_at,
            now,
            steps[i + 1],
        )
}

/// Whether some call has a sample.
pub open spec fn any_sample<S: Scalar>(
    calls: Seq<CallRecord<S>>,
    run_ended_at: Option<Timestamp>,
    now: Timestamp,
) -> bool {
    exists|i: int|
        0 <= i < calls.len() && call_sample(#[trigger] calls[i], run_ended_at, now) is Some
}

/// Whether `state` is what a learner for `agent` starts from: what was loaded, or a fresh state,
/// under the learner's agent.
pub open spec fn osl_starts_from(
    agent: Seq<char>,
    loaded: Option<OslEmpiricalState>,
    state: OslEmpiricalState,
) -> bool {
    &&& state.agent_id@ == agent
    &&& match loaded {
        Some(l) => state == (OslEmpiricalState { agent_id: state.agent_id, ..l }),
        None => state.fresh(),
    }
}

/// Whether `r` is what a learner for `agent` makes of a run: the state to store, or nothing when no
/// call has a sample.
pub open spec fn osl_processed<S: Scalar>(
    agent: Seq<char>,
    loaded: Option<OslEmpiricalState>,
    run: RunRecord<S>,
    now: Timestamp,
    r: Option<OslEmpiricalState>,
) -> bool {
    &&& r is Some <==> any_sample(run.calls@, run.ended_at, now)
    &&& r matches Some(state) ==> exists|
        before: OslEmpiricalState,
        steps: Seq<Map<Seq<char>, OslContextStats>>,
    |
        #![trigger osl_starts_from(agent, loaded, before), calls_learned(
            steps,
            agent,
            run.calls@,
            run.ended_at,
            now,
        )]
        {
            &&& osl_starts_from(agent, loaded, before)
            &&& calls_learned(steps, agent, run.calls@, run.ended_at, now)
            &&& steps[0] == before.contexts@
            &&& state.contexts@ == steps.last()
            &&& state == (OslEmpiricalState { contexts: state.contexts, ..before })
        }
}

impl OslEmpiricalLearner {
    /// The agent that the learner learns for.
    pub closed spec fn agent(self) -> Seq<char> {
        self.agent_id@
    }

    /// Create an empirical OSL learner for one agent/workflow.
    pub fn new(agent_id: String) -> (r: Self)
        ensures
            r.agent() == agent_id@,
    {
        OslEmpiricalLearner { agent_id }
    }

    /// Learns from a completed run.
    ///
    /// `loaded` is the state that was stored last, and `now` is when calls are taken to be observed
    /// that have no end in a run that has none. Returns the state to store and to serve from, unless
    /// no call has a sample.
    pub fn process_run_at<S: Scalar>(
        &self,
        loaded: Option<OslEmpiricalState>,
        run: &RunRecord<S>,
        now: Timestamp,
    ) -> (r: Option<OslEmpiricalState>)
        ensures
            osl_processed(self.agent(), loaded, *run, now, r),
    {
        let mut state = match loaded {
            Some(state) => state,
            None => OslEmpiricalState::new(self.agent_id.clone()),
        };
        state.agent_id = self.agent_id.clone();
        let ghost before = state;
        proof {
            assert(osl_starts_from(self.agent(), loaded, before));
        }
        let mut observed = false;
        let ghost mut steps = seq![state.contexts@];
        let mut i: usize = 0;
        while i < run.calls.len()
            invariant
                i <= run.calls.len(),
                before.agent_id@ == self.agent(),
                calls_learned(
                    steps,
                    self.agent(),
                    run.calls@.take(i as int),
                    run.ended_at,
                    now,
                ),
                steps[0] == before.contexts@,
                steps.last() == state.contexts@,
                state == (OslEmpiricalState { contexts: state.contexts, ..before }),
                observed == (exists|k: int|
                    0 <= k < i && call_sample(#[trigger] run.calls@[k], run.ended_at, now)
                        is Some),
            decreases run.calls.len() - i,
        {
            let ghost held = state.contexts@;
            if let Some(sample) = completed_call_sample(&run.calls[i], run.ended_at, now) {
                let workflow_key = sample.key_in(
                    OslContextScope::Workflow { agent_id: self.agent_id.clone() },
                );
                let global_key = sample.key_in(OslContextScope::Global);
                state.observe_context(workflow_key, sample.output_tokens, sample.observed_at);
                proof {
                    let facts = sample.facts();
                    assert(context_observed(
                        held,
                        key_of(
                            ScopeView::Workflow(self.agent()),
                            facts.model,
                            facts.signature,
                        ),
                        facts.output_tokens,
                        facts.at,
                        state.contexts@,
                    ));
                }
                state.observe_context(global_key, sample.output_tokens, sample.observed_at);
                observed = true;
            }
            proof {
                let calls = run.calls@.take(i + 1);
                assert(call_learned(
                    held,
                    self.agent(),
                    run.calls@[i as int],
                    run.ended_at,
                    now,
                    state.contexts@,
                ));
                let longer = steps.push(state.contexts@);
                assert forall|k: int| 0 <= k < calls.len() implies call_learned(
                    longer[k],
                    self.agent(),
                    #[trigger] calls[k],
                    run.ended_at,
                    now,
                    longer[k + 1],
                ) by {
                    if k < i {
                        assert(calls[k] == run.calls@.take(i as int)[k]);
                    }
                }
                steps = longer;
            }
            i += 1;
        }
        proof {
            assert(run.calls@.take(run.calls.len() as int) =~= run.calls@);
        }
        if !observed {
            return None;
        }
        Some(state)
    }

    /// Learns from a completed run.
    ///
    /// `loaded` is the state that was stored last. Returns the state to store and to serve from,
    /// unless no call has a sample.
    pub fn process_run<S: Scalar>(
        &self,
        loaded: Option<OslEmpiricalState>,
        run: &RunRecord<S>,
    ) -> (r: Option<OslEmpiricalState>)
        ensures
            exists|now: Timestamp| #[trigger]
                osl_processed(self.agent(), loaded, *run, now, r),
    {
        self.process_run_at(loaded, run, Timestamp::now())
    }
}

/// Whatever is observed, no more contexts are kept than fit, and those that are kept are kept as they
/// are.
pub proof fn law_contexts_bounded(
    grown: Map<Seq<char>, StatsView>,
    after: Map<Seq<char>, OslContextStats>,
    max: nat,
    key: Seq<char>,
)
    requires
        bounded_from(grown, after, max),
    ensures
        after.dom().len() <= max,
        after.contains_key(key) ==> grown.contains_key(key) && after[key]@ == grown[key],
{
    let before = choose|before: Map<Seq<char>, OslContextStats>|
        views(before) == grown && #[trigger] kept_freshest(before, after, max);
    if after.contains_key(key) {
        assert(before.contains_key(key));
        assert(views(before).contains_key(key));
    }
}

} // verus!
