//! Adaptive feedback in JSON form.
//!
//! Feedback is written as an object with one member for each fact that is known. It is also read
//! from a list that holds the facts in their order. A fact that is missing or null is not known.
use crate::json::{bool_of, json_array, json_bool, json_empty_object, json_entries, json_flag, json_get, json_insert, json_is_null, json_number, json_object, json_object_mut, json_str, json_text, json_u64, json_view, member, number_of, text_of, JsonView};
use crate::records::{feedback_view, CallAdaptiveHints, FeedbackView};
use crate::text::optional_text;
use serde_json::Value;
use vstd::prelude::*;

verus! {

/// Member for the residual arm.
pub const ARM_KEY: &'static str = "selected_priority_residual_arm";

/// Member for the key of the residual context.
pub const RESIDUAL_KEY_KEY: &'static str = "selected_priority_residual_key";

/// Member for the emitted priority.
pub const EMITTED_PRIORITY_KEY: &'static str = "emitted_priority";

/// Member for the priority cap.
pub const PRIORITY_CAP_KEY: &'static str = "priority_cap";

/// Member for the source of the output length.
pub const OSL_SOURCE_KEY: &'static str = "selected_osl_source";

/// Member for the emitted output length.
pub const EMITTED_OSL_KEY: &'static str = "emitted_osl";

/// Member for whether the samples of the output length passed.
pub const OSL_CONFIDENCE_KEY: &'static str = "osl_confidence_passed";

/// Member for how many samples the output length has.
pub const OSL_SAMPLE_COUNT_KEY: &'static str = "osl_sample_count";

/// How many facts feedback has room for.
pub const FEEDBACK_FACTS: usize = 8;

/// The members for the facts, in their order.
pub open spec fn feedback_keys() -> Seq<Seq<char>> {
    seq![
        ARM_KEY@,
        RESIDUAL_KEY_KEY@,
        EMITTED_PRIORITY_KEY@,
        PRIORITY_CAP_KEY@,
        OSL_SOURCE_KEY@,
        EMITTED_OSL_KEY@,
        OSL_CONFIDENCE_KEY@,
        OSL_SAMPLE_COUNT_KEY@,
    ]
}

/// A small count as a count.
pub open spec fn widened(n: Option<u8>) -> Option<u32> {
    match n {
        Some(n) => Some(n as u32),
        None => None,
    }
}

/// Whether an object holds a count under a member, or nothing when there is none.
pub open spec fn holds_count(
    entries: Map<Seq<char>, Value>,
    key: Seq<char>,
    fact: Option<u32>,
) -> bool {
    match fact {
        Some(n) => entries.contains_key(key) && number_of(entries[key]) == Some(n as u64),
        None => !entries.contains_key(key),
    }
}

/// Whether an object holds a text under a member, or nothing when there is none.
pub open spec fn holds_text(
    entries: Map<Seq<char>, Value>,
    key: Seq<char>,
    fact: Option<Seq<char>>,
) -> bool {
    match fact {
        Some(s) => entries.contains_key(key) && text_of(entries[key]) == Some(s),
        None => !entries.contains_key(key),
    }
}

/// Whether an object holds a truth value under a member, or nothing when there is none.
pub open spec fn holds_flag(
    entries: Map<Seq<char>, Value>,
    key: Seq<char>,
    fact: Option<bool>,
) -> bool {
    match fact {
        Some(b) => entries.contains_key(key) && bool_of(entries[key]) == Some(b),
        None => !entries.contains_key(key),
    }
}

/// Whether the entries of an object are the known facts of some feedback, and nothing else.
pub open spec fn holds_feedback(entries: Map<Seq<char>, Value>, f: FeedbackView) -> bool {
    &&& holds_count(entries, ARM_KEY@, widened(f.arm))
    &&& holds_text(entries, RESIDUAL_KEY_KEY@, f.key)
    &&& holds_count(entries, EMITTED_PRIORITY_KEY@, f.emitted_priority)
    &&& holds_count(entries, PRIORITY_CAP_KEY@, f.priority_cap)
    &&& holds_text(entries, OSL_SOURCE_KEY@, f.osl_source)
    &&& holds_count(entries, EMITTED_OSL_KEY@, f.emitted_osl)
    &&& holds_flag(entries, OSL_CONFIDENCE_KEY@, f.osl_confidence_passed)
    &&& holds_count(entries, OSL_SAMPLE_COUNT_KEY@, f.osl_sample_count)
    &&& forall|key: Seq<char>| #[trigger]
        entries.contains_key(key) ==> feedback_keys().contains(key)
}

/// Whether a JSON value is the form of some feedback.
pub open spec fn is_form_of(value: Value, f: FeedbackView) -> bool {
    json_view(value) matches JsonView::Object(entries) && holds_feedback(entries, f)
}

/// The value in a JSON form at the place of a fact.
pub open spec fn fact_at(form: JsonView, i: int) -> Option<Value> {
    match form {
        JsonView::Object(_) => member(form, feedback_keys()[i]),
        JsonView::Array(items) => if i < items.len() {
            Some(items[i])
        } else {
            None
        },
        _ => None,
    }
}

/// Reads a count up to `most`: one, or that it is not known. Nothing when it cannot be read.
pub open spec fn count_read(value: Option<Value>, most: u32) -> Option<Option<u32>> {
    match value {
        None => Some(None),
        Some(v) => if json_view(v) is Null {
            Some(None)
        } else {
            match number_of(v) {
                Some(n) if n <= most => Some(Some(n as u32)),
                _ => None,
            }
        },
    }
}

/// Reads a text: one, or that it is not known. Nothing when it cannot be read.
pub open spec fn text_read(value: Option<Value>) -> Option<Option<Seq<char>>> {
    match value {
        None => Some(None),
        Some(v) => if json_view(v) is Null {
            Some(None)
        } else {
            match text_of(v) {
                Some(s) => Some(Some(s)),
                None => None,
            }
        },
    }
}

/// Reads a truth value: one, or that it is not known. Nothing when it cannot be read.
pub open spec fn flag_read(value: Option<Value>) -> Option<Option<bool>> {
    match value {
        None => Some(None),
        Some(v) => if json_view(v) is Null {
            Some(None)
        } else {
            match bool_of(v) {
                Some(b) => Some(Some(b)),
                None => None,
            }
        },
    }
}

/// Whether a JSON value can be the form of feedback at all: an object, or a list with no more items
/// than there are facts.
pub open spec fn has_facts(form: JsonView) -> bool {
    match form {
        JsonView::Object(_) => true,
        JsonView::Array(items) => items.len() <= FEEDBACK_FACTS,
        _ => false,
    }
}

/// The feedback that a JSON value is read as. There is none when any fact cannot be read.
pub open spec fn feedback_read(value: Value) -> Option<FeedbackView> {
    let form = json_view(value);
    match (
        count_read(fact_at(form, 0), 255),
        text_read(fact_at(form, 1)),
        count_read(fact_at(form, 2), u32::MAX),
        count_read(fact_at(form, 3), u32::MAX),
        text_read(fact_at(form, 4)),
        count_read(fact_at(form, 5), u32::MAX),
        flag_read(fact_at(form, 6)),
        count_read(fact_at(form, 7), u32::MAX),
    ) {
        (
            Some(arm),
            Some(key),
            Some(emitted_priority),
            Some(priority_cap),
            Some(osl_source),
            Some(emitted_osl),
            Some(osl_confidence_passed),
            Some(osl_sample_count),
        ) => if has_facts(form) {
            Some(
                FeedbackView {
                    arm: match arm {
                        Some(n) => Some(n as u8),
                        None => None,
                    },
                    key,
                    emitted_priority,
                    priority_cap,
                    osl_source,
                    emitted_osl,
                    osl_confidence_passed,
                    osl_sample_count,
                },
            )
        } else {
            None
        },
        _ => None,
    }
}

/// No two facts share a member.
#[verifier::spinoff_prover]
proof fn lemma_keys_apart()
    ensures
        feedback_keys().no_duplicates(),
{
    reveal_strlit("selected_priority_residual_arm");
    reveal_strlit("selected_priority_residual_key");
    reveal_strlit("emitted_priority");
    reveal_strlit("priority_cap");
    reveal_strlit("selected_osl_source");
    reveal_strlit("emitted_osl");
    reveal_strlit("osl_confidence_passed");
    reveal_strlit("osl_sample_count");
    assert(ARM_KEY@.len() == 30 && ARM_KEY@[27] == 'a');
    assert(RESIDUAL_KEY_KEY@.len() == 30 && RESIDUAL_KEY_KEY@[27] == 'k');
    assert(EMITTED_PRIORITY_KEY@.len() == 16 && EMITTED_PRIORITY_KEY@[0] == 'e');
    assert(PRIORITY_CAP_KEY@.len() == 12);
    assert(OSL_SOURCE_KEY@.len() == 19);
    assert(EMITTED_OSL_KEY@.len() == 11);
    assert(OSL_CONFIDENCE_KEY@.len() == 21);
    assert(OSL_SAMPLE_COUNT_KEY@.len() == 16 && OSL_SAMPLE_COUNT_KEY@[0] == 'o');
}

/// The members apart, one by one.
proof fn lemma_members_apart()
    ensures
        forall|i: int, j: int|
            0 <= i < 8 && 0 <= j < 8 && i != j ==> #[trigger] feedback_keys()[i]
                != #[trigger] feedback_keys()[j],
        feedback_keys()[0] == ARM_KEY@,
        feedback_keys()[1] == RESIDUAL_KEY_KEY@,
        feedback_keys()[2] == EMITTED_PRIORITY_KEY@,
        feedback_keys()[3] == PRIORITY_CAP_KEY@,
        feedback_keys()[4] == OSL_SOURCE_KEY@,
        feedback_keys()[5] == EMITTED_OSL_KEY@,
        feedback_keys()[6] == OSL_CONFIDENCE_KEY@,
        feedback_keys()[7] == OSL_SAMPLE_COUNT_KEY@,
{
    lemma_keys_apart();
}

/// Whether `after` are the entries `before`, with one under `key` when there is a fact for it.
spec fn one_more(
    before: Map<Seq<char>, Value>,
    after: Map<Seq<char>, Value>,
    key: Seq<char>,
    known: bool,
) -> bool {
    after == if known {
        before.insert(key, after[key])
    } else {
        before
    }
}

fn put_count(object: &mut serde_json::Map<String, Value>, key: &str, fact: Option<u32>)
    requires
        !json_entries(*old(object)).contains_key(key@),
    ensures
        one_more(json_entries(*old(object)), json_entries(*final(object)), key@, fact is Some),
        holds_count(json_entries(*final(object)), key@, fact),
{
    if let Some(n) = fact {
        json_insert(object, key, json_number(n));
    }
}

fn put_text(object: &mut serde_json::Map<String, Value>, key: &str, fact: &Option<String>)
    requires
        !json_entries(*old(object)).contains_key(key@),
    ensures
        one_more(json_entries(*old(object)), json_entries(*final(object)), key@, fact is Some),
        holds_text(json_entries(*final(object)), key@, optional_text(*fact)),
{
    if let Some(s) = fact {
        json_insert(object, key, json_text(s.as_str()));
    }
}

fn put_flag(object: &mut serde_json::Map<String, Value>, key: &str, fact: Option<bool>)
    requires
        !json_entries(*old(object)).contains_key(key@),
    ensures
        one_more(json_entries(*old(object)), json_entries(*final(object)), key@, fact is Some),
        holds_flag(json_entries(*final(object)), key@, fact),
{
    if let Some(b) = fact {
        json_insert(object, key, json_flag(b));
    }
}

fn put_facts(object: &mut serde_json::Map<String, Value>, hints: &CallAdaptiveHints)
    requires
        json_entries(*old(object)) == Map::<Seq<char>, Value>::empty(),
    ensures
        holds_feedback(json_entries(*final(object)), hints@),
{
    proof {
        lemma_members_apart();
    }
    let ghost keys = feedback_keys();
    let arm: Option<u32> = match hints.selected_priority_residual_arm {
        Some(arm) => Some(arm as u32),
        None => None,
    };
    put_count(object, ARM_KEY, arm);
    put_text(object, RESIDUAL_KEY_KEY, &hints.selected_priority_residual_key);
    put_count(object, EMITTED_PRIORITY_KEY, hints.emitted_priority);
    put_count(object, PRIORITY_CAP_KEY, hints.priority_cap);
    put_text(object, OSL_SOURCE_KEY, &hints.selected_osl_source);
    put_count(object, EMITTED_OSL_KEY, hints.emitted_osl);
    put_flag(object, OSL_CONFIDENCE_KEY, hints.osl_confidence_passed);
    put_count(object, OSL_SAMPLE_COUNT_KEY, hints.osl_sample_count);
    proof {
        assert forall|key: Seq<char>| #[trigger]
            json_entries(*object).contains_key(key) implies keys.contains(key) by {
            assert(keys.contains(keys[0]) && keys.contains(keys[1]) && keys.contains(keys[2])
                && keys.contains(keys[3]) && keys.contains(keys[4]) && keys.contains(keys[5])
                && keys.contains(keys[6]) && keys.contains(keys[7]));
        }
    }
}

/// Writes feedback in JSON form.
pub fn feedback_form(hints: &CallAdaptiveHints) -> (r: Value)
    ensures
        is_form_of(r, hints@),
{
    let mut form = json_empty_object();
    if let Some(object) = json_object_mut(&mut form) {
        put_facts(object, hints);
    }
    form
}

fn find_fact<'a>(form: &'a Value, i: usize, key: &str) -> (r: Option<&'a Value>)
    requires
        i < FEEDBACK_FACTS,
        key@ == feedback_keys()[i as int],
    ensures
        match fact_at(json_view(*form), i as int) {
            Some(value) => r == Some(&value),
            None => r is None,
        },
{
    if let Some(object) = json_object(form) {
        return json_get(object, key);
    }
    match json_array(form) {
        Some(items) => if i < items.len() {
            Some(&items[i])
        } else {
            None
        },
        None => None,
    }
}

/// A value that is looked up, as the value itself.
spec fn found(value: Option<&Value>) -> Option<Value> {
    match value {
        Some(v) => Some(*v),
        None => None,
    }
}

fn read_count(value: Option<&Value>, most: u32) -> (r: Option<Option<u32>>)
    ensures
        r == count_read(found(value), most),
{
    let value = match value {
        Some(value) => value,
        None => {
            return Some(None);
        },
    };
    if json_is_null(value) {
        return Some(None);
    }
    match json_u64(value) {
        Some(n) => if n <= most as u64 {
            Some(Some(n as u32))
        } else {
            None
        },
        None => None,
    }
}

fn read_text(value: Option<&Value>) -> (r: Option<Option<String>>)
    ensures
        match text_read(found(value)) {
            Some(s) => r is Some && optional_text(r->0) == s,
            None => r is None,
        },
{
    let value = match value {
        Some(value) => value,
        None => {
            return Some(None);
        },
    };
    if json_is_null(value) {
        return Some(None);
    }
    match json_str(value) {
        Some(s) => Some(Some(s.to_owned())),
        None => None,
    }
}

fn read_flag(value: Option<&Value>) -> (r: Option<Option<bool>>)
    ensures
        r == flag_read(found(value)),
{
    let value = match value {
        Some(value) => value,
        None => {
            return Some(None);
        },
    };
    if json_is_null(value) {
        return Some(None);
    }
    match json_bool(value) {
        Some(b) => Some(Some(b)),
        None => None,
    }
}

fn accepts(form: &Value) -> (r: bool)
    ensures
        r == has_facts(json_view(*form)),
{
    if json_object(form).is_some() {
        return true;
    }
    match json_array(form) {
        Some(items) => items.len() <= FEEDBACK_FACTS,
        None => false,
    }
}

/// Reads feedback from its JSON form.
pub fn read_feedback_form(form: &Value) -> (r: Option<CallAdaptiveHints>)
    ensures
        feedback_view(r) == feedback_read(*form),
{
    let arm = read_count(find_fact(form, 0, ARM_KEY), 255);
    let key = read_text(find_fact(form, 1, RESIDUAL_KEY_KEY));
    let emitted_priority = read_count(find_fact(form, 2, EMITTED_PRIORITY_KEY), u32::MAX);
    let priority_cap = read_count(find_fact(form, 3, PRIORITY_CAP_KEY), u32::MAX);
    let osl_source = read_text(find_fact(form, 4, OSL_SOURCE_KEY));
    let emitted_osl = read_count(find_fact(form, 5, EMITTED_OSL_KEY), u32::MAX);
    let osl_confidence_passed = read_flag(find_fact(form, 6, OSL_CONFIDENCE_KEY));
    let osl_sample_count = read_count(find_fact(form, 7, OSL_SAMPLE_COUNT_KEY), u32::MAX);
    if !accepts(form) {
        return None;
    }
    match (
        arm,
        key,
        emitted_priority,
        priority_cap,
        osl_source,
        emitted_osl,
        osl_confidence_passed,
        osl_sample_count,
    ) {
        (
            Some(arm),
            Some(selected_priority_residual_key),
            Some(emitted_priority),
            Some(priority_cap),
            Some(selected_osl_source),
            Some(emitted_osl),
            Some(osl_confidence_passed),
            Some(osl_sample_count),
        ) => Some(
            CallAdaptiveHints {
                selected_priority_residual_arm: match arm {
                    Some(n) => Some(n as u8),
                    None => None,
                },
                selected_priority_residual_key,
                emitted_priority,
                priority_cap,
                selected_osl_source,
                emitted_osl,
                osl_confidence_passed,
                osl_sample_count,
            },
        ),
        _ => None,
    }
}

/// Feedback is read from its JSON form as it was written, fact for fact.
pub proof fn law_form_reads_back(value: Value, f: FeedbackView)
    requires
        is_form_of(value, f),
    ensures
        feedback_read(value) == Some(f),
{
    let form = json_view(value);
    assert(count_read(fact_at(form, 0), 255) == Some(widened(f.arm)));
    assert(text_read(fact_at(form, 1)) == Some(f.key));
    assert(count_read(fact_at(form, 2), u32::MAX) == Some(f.emitted_priority));
    assert(count_read(fact_at(form, 3), u32::MAX) == Some(f.priority_cap));
    assert(text_read(fact_at(form, 4)) == Some(f.osl_source));
    assert(count_read(fact_at(form, 5), u32::MAX) == Some(f.emitted_osl));
    assert(flag_read(fact_at(form, 6)) == Some(f.osl_confidence_passed));
    assert(count_read(fact_at(form, 7), u32::MAX) == Some(f.osl_sample_count));
}

/// In the JSON form of feedback every fact stands under its own name, and a fact that is not known
/// under none.
pub proof fn law_facts_stand_under_their_names(value: Value, f: FeedbackView)
    requires
        is_form_of(value, f),
    ensures
        ({
            let form = json_view(value);
            let arm = member(form, "selected_priority_residual_arm"@);
            let key = member(form, "selected_priority_residual_key"@);
            let emitted = member(form, "emitted_priority"@);
            let cap = member(form, "priority_cap"@);
            let source = member(form, "selected_osl_source"@);
            let osl = member(form, "emitted_osl"@);
            let passed = member(form, "osl_confidence_passed"@);
            let count = member(form, "osl_sample_count"@);
            &&& f.arm is Some <==> arm is Some
            &&& f.arm matches Some(n) ==> number_of(arm->0) == Some(n as u64)
            &&& f.key is Some <==> key is Some
            &&& f.key matches Some(s) ==> text_of(key->0) == Some(s)
            &&& f.emitted_priority is Some <==> emitted is Some
            &&& f.emitted_priority matches Some(n) ==> number_of(emitted->0) == Some(n as u64)
            &&& f.priority_cap is Some <==> cap is Some
            &&& f.priority_cap matches Some(n) ==> number_of(cap->0) == Some(n as u64)
            &&& f.osl_source is Some <==> source is Some
            &&& f.osl_source matches Some(s) ==> text_of(source->0) == Some(s)
            &&& f.emitted_osl is Some <==> osl is Some
            &&& f.emitted_osl matches Some(n) ==> number_of(osl->0) == Some(n as u64)
            &&& f.osl_confidence_passed is Some <==> passed is Some
            &&& f.osl_confidence_passed matches Some(b) ==> bool_of(passed->0) == Some(b)
            &&& f.osl_sample_count is Some <==> count is Some
            &&& f.osl_sample_count matches Some(n) ==> number_of(count->0) == Some(n as u64)
        }),
{
}

/// Feedback in a list is read fact by fact, in the order of the facts; a null, or a list that ends
/// before it, leaves a fact unknown.
pub proof fn law_lists_are_read_in_order(value: Value, items: Seq<Value>, f: FeedbackView)
    requires
        json_view(value) == JsonView::Array(items),
        feedback_read(value) == Some(f),
    ensures
        ({
            let known = |i: int| i < items.len() && !(json_view(items[i]) is Null);
            &&& f.arm is Some <==> known(0)
            &&& known(0) ==> number_of(items[0]) == Some(f.arm->0 as u64)
            &&& f.key is Some <==> known(1)
            &&& known(1) ==> text_of(items[1]) == f.key
            &&& f.emitted_priority is Some <==> known(2)
            &&& known(2) ==> number_of(items[2]) == Some(f.emitted_priority->0 as u64)
            &&& f.priority_cap is Some <==> known(3)
            &&& known(3) ==> number_of(items[3]) == Some(f.priority_cap->0 as u64)
            &&& f.osl_source is Some <==> known(4)
            &&& known(4) ==> text_of(items[4]) == f.osl_source
            &&& f.emitted_osl is Some <==> known(5)
            &&& known(5) ==> number_of(items[5]) == Some(f.emitted_osl->0 as u64)
            &&& f.osl_confidence_passed is Some <==> known(6)
            &&& known(6) ==> bool_of(items[6]) == f.osl_confidence_passed
            &&& f.osl_sample_count is Some <==> known(7)
            &&& known(7) ==> number_of(items[7]) == Some(f.osl_sample_count->0 as u64)
        }),
{
}

} // verus!
