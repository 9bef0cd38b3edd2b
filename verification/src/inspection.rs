//! Decoding what a device answers to rule inspection.

use vstd::prelude::*;

use crate::error::{unexpected, Fault, InspectionError};
use crate::json::{
    lemma_json_view, list_view, member, members_view, unsigned_member, Json, JsonValue,
};
use crate::path::{
    instances_view, rule_path_fault, validate_root_instance_path, validate_rule_instance_path,
    Instance, Step,
};
use crate::rule::{detail_from_rule, detail_of, nature_text, Rule, RuleNature};
use crate::rule_text::{
    summaries_view, summary_key, without_prefix, DetailView, RuleDetail, RuleSummary, SummaryView,
};
use crate::selector::{selector_of, RuleSelector};
use crate::service::decoded_view;
use crate::sid::{
    after_last, identifier_of, last_segment, resolved_sids, shape_fault, validate_model_shape,
    ModelSids, ModelView, SidModel,
};
use crate::sort::{lemma_sort_by_picks, order_view, pair_key, picked, sort_by, sort_order};
use crate::target::{accepted_view, answer_view, get_list, list_member};
use crate::text::{decimal, decimal_string, join, join3, same_text, strip_prefix};

verus! {

/// The identifier of a nature, given the model's conversion of a value that is
/// no text.
pub open spec fn nature_identifier(
    model: ModelView,
    value: Json,
    converted: Result<Json, Seq<char>>,
) -> Result<Seq<char>, Fault> {
    let held = if value is Text {
        Ok(value)
    } else {
        converted
    };
    match held {
        Err(text) => Err(Fault::UnexpectedResponse(text)),
        Ok(Json::Text(identifier)) => Ok(identifier),
        Ok(Json::Integer(number)) => if i64::MIN <= number <= i64::MAX {
            match identifier_of(model, number as i64) {
                Some(identifier) => Ok(identifier),
                None => Err(Fault::UnexpectedResponse("unknown rule-nature SID"@)),
            }
        } else {
            Err(Fault::UnexpectedResponse("rule-nature SID is not an integer"@))
        },
        Ok(Json::Decimal(_)) => Err(
            Fault::UnexpectedResponse("rule-nature SID is not an integer"@),
        ),
        Ok(_) => Err(Fault::UnexpectedResponse("rule-nature is not an identity value"@)),
    }
}

/// Whether a text names a nature.
pub open spec fn is_nature(text: Seq<char>) -> bool {
    ||| text == nature_text(RuleNature::Compression)
    ||| text == nature_text(RuleNature::NoCompression)
    ||| text == nature_text(RuleNature::Fragmentation)
    ||| text == nature_text(RuleNature::Management)
}

/// The name of a nature.
pub open spec fn nature_of(
    model: ModelView,
    value: Json,
    converted: Result<Json, Seq<char>>,
) -> Result<Seq<char>, Fault> {
    match nature_identifier(model, value, converted) {
        Err(fault) => Err(fault),
        Ok(identifier) => {
            let nature = without_prefix(after_last(identifier, ':'), "nature-"@);
            if is_nature(nature) {
                Ok(nature)
            } else {
                Err(Fault::UnexpectedResponse("unknown rule nature '"@ + identifier + "'"@))
            }
        },
    }
}

fn read_identifier(model: &SidModel, value: &JsonValue, converted: &Result<JsonValue, String>) -> (result:
    Result<String, InspectionError>)
    ensures
        ({
            let outcome = nature_identifier(model@, value@, answer_view(*converted));
            match result {
                Ok(identifier) => outcome == Ok::<Seq<char>, Fault>(identifier@),
                Err(error) => outcome == Err::<Seq<char>, Fault>(error@),
            }
        }),
{
    if let JsonValue::Text(identifier) = value {
        return Ok(identifier.clone());
    }
    let held = match converted {
        Ok(held) => held,
        Err(text) => {
            return Err(unexpected(text.as_str()));
        },
    };
    match held {
        JsonValue::Text(identifier) => Ok(identifier.clone()),
        JsonValue::Integer(number) => {
            if *number < i64::MIN as i128 || *number > i64::MAX as i128 {
                return Err(unexpected("rule-nature SID is not an integer"));
            }
            match model.get_identifier(*number as i64) {
                Some(identifier) => Ok(identifier.clone()),
                None => Err(unexpected("unknown rule-nature SID")),
            }
        },
        JsonValue::Decimal(_) => Err(unexpected("rule-nature SID is not an integer")),
        _ => Err(unexpected("rule-nature is not an identity value")),
    }
}

fn strip_nature(text: &str) -> (result: String)
    ensures
        result@ == without_prefix(text@, "nature-"@),
{
    match strip_prefix(text, "nature-") {
        Some(rest) => rest,
        None => text.to_owned(),
    }
}

/// Returns the name of a nature. `converted` is the model's conversion of a
/// value that is no text.
pub fn decode_nature_value(
    model: &SidModel,
    value: &JsonValue,
    converted: &Result<JsonValue, String>,
) -> (result: Result<String, InspectionError>)
    ensures
        ({
            let outcome = nature_of(model@, value@, answer_view(*converted));
            match result {
                Ok(nature) => outcome == Ok::<Seq<char>, Fault>(nature@),
                Err(error) => outcome == Err::<Seq<char>, Fault>(error@),
            }
        }),
{
    let identifier = read_identifier(model, value, converted)?;
    let suffix = last_segment(identifier.as_str(), ':');
    let nature = strip_nature(suffix.as_str());
    let name = nature.as_str();
    if same_text(name, RuleNature::Compression.as_str()) || same_text(
        name,
        RuleNature::NoCompression.as_str(),
    ) || same_text(name, RuleNature::Fragmentation.as_str()) || same_text(
        name,
        RuleNature::Management.as_str(),
    ) {
        return Ok(nature);
    }
    Err(unexpected(join3("unknown rule nature '", identifier.as_str(), "'").as_str()))
}

/// The summary of one listed rule.
pub open spec fn listed_summary(
    model: ModelView,
    rule: Json,
    converted: Result<Json, Seq<char>>,
) -> Result<SummaryView, Fault> {
    if !(rule is Object) {
        Err(Fault::UnexpectedResponse("rule-list response contained a non-object rule"@))
    } else {
        match (unsigned_member(rule, "rule-id-value"@), unsigned_member(rule, "rule-id-length"@)) {
            (None, _) => Err(
                Fault::UnexpectedResponse("rule-list response rule-id-value is not numeric"@),
            ),
            (Some(_), None) => Err(
                Fault::UnexpectedResponse("rule-list response rule-id-length is not numeric"@),
            ),
            (Some(value), Some(bits)) => if bits > usize::MAX {
                Err(
                    Fault::UnexpectedResponse("rule-list response rule-id-length is not numeric"@),
                )
            } else {
                match selector_of(value, bits as usize) {
                    Err(fault) => Err(fault),
                    Ok(id) => match member(rule, "rule-nature"@) {
                        None => Err(
                            Fault::UnexpectedResponse(
                                "rule-list response is missing rule-nature"@,
                            ),
                        ),
                        Some(nature) => match nature_of(model, nature, converted) {
                            Err(fault) => Err(fault),
                            Ok(name) => Ok(SummaryView { id, nature: name }),
                        },
                    },
                }
            },
        }
    }
}

/// Whether a rule is among some summaries.
pub open spec fn listed(summaries: Seq<SummaryView>, id: RuleSelector) -> bool {
    exists|i: int| 0 <= i < summaries.len() && (#[trigger] summaries[i]).id == id
}

/// The summaries of the first listed rules, in their order.
pub open spec fn listed_summaries(
    model: ModelView,
    rules: Seq<Json>,
    count: nat,
    converted: Seq<Result<Json, Seq<char>>>,
) -> Result<Seq<SummaryView>, Fault>
    decreases count,
{
    if count == 0 {
        Ok(Seq::empty())
    } else {
        match listed_summaries(model, rules, (count - 1) as nat, converted) {
            Err(fault) => Err(fault),
            Ok(before) => match listed_summary(model, rules[count - 1], converted[count - 1]) {
                Err(fault) => Err(fault),
                Ok(summary) => if listed(before, summary.id) {
                    Err(
                        Fault::UnexpectedResponse(
                            "rule-list response duplicated RuleID "@ + decimal(
                                summary.id.value as nat,
                            ) + "/"@ + decimal(summary.id.bits as nat),
                        ),
                    )
                } else {
                    Ok(before.push(summary))
                },
            },
        }
    }
}

/// The converted answers of a list.
pub open spec fn conversions_view(answers: Seq<Result<JsonValue, String>>) -> Seq<
    Result<Json, Seq<char>>,
> {
    Seq::new(answers.len(), |i: int| answer_view(answers[i]))
}

/// What the model library answered while a rule list was decoded.
#[derive(Debug)]
pub struct ListAnswers {
    /// The instances of the payload.
    pub instances: Result<Vec<Instance>, String>,
    /// The root container by identifiers.
    pub root: Result<JsonValue, String>,
    /// Whether the model accepts that container.
    pub accepted: Result<(), String>,
    /// The conversion of each rule's nature.
    pub natures: Vec<Result<JsonValue, String>>,
}

/// The root container of a rule-list response.
pub open spec fn list_root(model: ModelView, answers: ListAnswers) -> Result<Json, Fault> {
    match resolved_sids(model) {
        Err(fault) => Err(fault),
        Ok(sids) => match decoded_view(answers.instances) {
            Err(text) => Err(Fault::UnexpectedResponse(text)),
            Ok(instances) => if instances.len() != 1 {
                Err(
                    Fault::UnexpectedResponse(
                        "rule-list response contained "@ + decimal(instances.len())
                            + " instances, expected one root container"@,
                    ),
                )
            } else if instances[0].path != seq![Step::Delta(sids.root as int)] {
                Err(
                    Fault::UnexpectedResponse(
                        "rule-list response did not contain the canonical SCHC root instance"@,
                    ),
                )
            } else {
                match instances[0].value {
                    None => Err(
                        Fault::UnexpectedResponse(
                            "rule-list response contained a deleted root"@,
                        ),
                    ),
                    Some(Json::Null) => Err(
                        Fault::UnexpectedResponse("rule-list response contained a null root"@),
                    ),
                    Some(_) => match (answer_view(answers.root), accepted_view(answers.accepted)) {
                        (Err(text), _) => Err(Fault::UnexpectedResponse(text)),
                        (Ok(_), Err(text)) => Err(Fault::UnexpectedResponse(text)),
                        (Ok(root), Ok(_)) => Ok(root),
                    },
                }
            },
        },
    }
}

/// The rules of a rule-list response, ordered by identity.
pub open spec fn rule_list(model: ModelView, answers: ListAnswers) -> Result<
    Seq<SummaryView>,
    Fault,
> {
    match list_root(model, answers) {
        Err(fault) => Err(fault),
        Ok(root) => match list_member(root, "rule"@) {
            None => Err(
                Fault::UnexpectedResponse("rule-list response root did not contain a rule array"@),
            ),
            Some(rules) => match listed_summaries(
                model,
                rules,
                rules.len(),
                conversions_view(answers.natures@),
            ) {
                Err(fault) => Err(fault),
                Ok(summaries) => Ok(sort_by(summaries, summary_key())),
            },
        },
    }
}

fn read_root<'a>(model: &SidModel, answers: &'a ListAnswers) -> (result: Result<
    &'a JsonValue,
    InspectionError,
>)
    ensures
        match result {
            Ok(root) => list_root(model@, *answers) == Ok::<Json, Fault>(root@),
            Err(error) => list_root(model@, *answers) == Err::<Json, Fault>(error@),
        },
{
    let sids = ModelSids::resolve(model)?;
    let instances = match &answers.instances {
        Ok(instances) => instances,
        Err(text) => {
            return Err(unexpected(text.as_str()));
        },
    };
    if instances.len() != 1 {
        return Err(
            unexpected(
                join3(
                    "rule-list response contained ",
                    decimal_string(instances.len() as u64).as_str(),
                    " instances, expected one root container",
                ).as_str(),
            ),
        );
    }
    assert(instances_view(instances@)[0] == instances@[0]@);
    validate_root_instance_path(&instances[0].path, sids.root)?;
    match &instances[0].value {
        None => {
            return Err(unexpected("rule-list response contained a deleted root"));
        },
        Some(JsonValue::Null) => {
            return Err(unexpected("rule-list response contained a null root"));
        },
        Some(_) => {},
    }
    let root = match &answers.root {
        Ok(root) => root,
        Err(text) => {
            return Err(unexpected(text.as_str()));
        },
    };
    match &answers.accepted {
        Ok(_) => Ok(root),
        Err(text) => Err(unexpected(text.as_str())),
    }
}

fn summarize(model: &SidModel, rule: &JsonValue, converted: &Result<JsonValue, String>) -> (result:
    Result<RuleSummary, InspectionError>)
    ensures
        ({
            let outcome = listed_summary(model@, rule@, answer_view(*converted));
            match result {
                Ok(summary) => outcome == Ok::<SummaryView, Fault>(summary@),
                Err(error) => outcome == Err::<SummaryView, Fault>(error@),
            }
        }),
{
    let object = match rule {
        JsonValue::Object(_) => true,
        _ => false,
    };
    if !object {
        return Err(unexpected("rule-list response contained a non-object rule"));
    }
    let value: u64 = match rule.get_u64("rule-id-value") {
        Some(value) => value,
        None => {
            return Err(unexpected("rule-list response rule-id-value is not numeric"));
        },
    };
    let bits: u64 = match rule.get_u64("rule-id-length") {
        Some(bits) => bits,
        None => {
            return Err(unexpected("rule-list response rule-id-length is not numeric"));
        },
    };
    if bits > usize::MAX as u64 {
        return Err(unexpected("rule-list response rule-id-length is not numeric"));
    }
    let id = RuleSelector::new(value, bits as usize)?;
    match rule.get("rule-nature") {
        None => Err(unexpected("rule-list response is missing rule-nature")),
        Some(held) => {
            let nature = decode_nature_value(model, held, converted)?;
            Ok(RuleSummary { id, nature })
        },
    }
}

fn is_listed(summaries: &Vec<RuleSummary>, id: RuleSelector) -> (result: bool)
    ensures
        result == listed(summaries_view(summaries@), id),
{
    let ghost view = summaries_view(summaries@);
    let mut index: usize = 0;
    while index < summaries.len()
        invariant
            index <= summaries@.len(),
            view == summaries_view(summaries@),
            forall|i: int| 0 <= i < index ==> (#[trigger] view[i]).id != id,
        decreases summaries.len() - index,
    {
        assert(view[index as int] == summaries@[index as int]@);
        if summaries[index].id == id {
            return true;
        }
        index += 1;
    }
    false
}

proof fn lemma_listing_error_stays(
    model: ModelView,
    rules: Seq<Json>,
    count: nat,
    more: nat,
    converted: Seq<Result<Json, Seq<char>>>,
)
    requires
        count <= more,
        listed_summaries(model, rules, count, converted) is Err,
    ensures
        listed_summaries(model, rules, more, converted) == listed_summaries(
            model,
            rules,
            count,
            converted,
        ),
    decreases more,
{
    if count < more {
        lemma_listing_error_stays(model, rules, count, (more - 1) as nat, converted);
    }
}

fn summarize_all(
    model: &SidModel,
    rules: &Vec<JsonValue>,
    natures: &Vec<Result<JsonValue, String>>,
) -> (result: Result<Vec<RuleSummary>, InspectionError>)
    requires
        natures@.len() >= rules@.len(),
    ensures
        ({
            let outcome = listed_summaries(
                model@,
                list_view(rules@),
                rules@.len(),
                conversions_view(natures@),
            );
            match result {
                Ok(summaries) => outcome == Ok::<Seq<SummaryView>, Fault>(
                    summaries_view(summaries@),
                ),
                Err(error) => outcome == Err::<Seq<SummaryView>, Fault>(error@),
            }
        }),
{
    let ghost view = list_view(rules@);
    let ghost converted = conversions_view(natures@);
    let mut summaries: Vec<RuleSummary> = Vec::new();
    let mut index: usize = 0;
    assert(summaries_view(summaries@) =~= Seq::<SummaryView>::empty());
    while index < rules.len()
        invariant
            index <= rules@.len(),
            natures@.len() >= rules@.len(),
            view == list_view(rules@),
            converted == conversions_view(natures@),
            listed_summaries(model@, view, index as nat, converted) == Ok::<
                Seq<SummaryView>,
                Fault,
            >(summaries_view(summaries@)),
        decreases rules.len() - index,
    {
        proof {
            assert(view[index as int] == rules@[index as int]@);
            assert(converted[index as int] == answer_view(natures@[index as int]));
            if listed_summaries(model@, view, (index + 1) as nat, converted) is Err {
                lemma_listing_error_stays(
                    model@,
                    view,
                    (index + 1) as nat,
                    view.len(),
                    converted,
                );
            }
        }
        let summary = summarize(model, &rules[index], &natures[index])?;
        if is_listed(&summaries, summary.id) {
            let head = join(
                "rule-list response duplicated RuleID ",
                decimal_string(summary.id.value).as_str(),
            );
            return Err(
                unexpected(
                    join3(
                        head.as_str(),
                        "/",
                        decimal_string(summary.id.bits as u64).as_str(),
                    ).as_str(),
                ),
            );
        }
        let ghost before = summaries_view(summaries@);
        summaries.push(summary);
        assert(summaries_view(summaries@) =~= before.push(summary@));
        index += 1;
    }
    Ok(summaries)
}

fn order_summaries(summaries: &Vec<RuleSummary>) -> (result: Vec<RuleSummary>)
    ensures
        summaries_view(result@) == sort_by(summaries_view(summaries@), summary_key()),
{
    let ghost view = summaries_view(summaries@);
    let mut keys: Vec<(u64, u64)> = Vec::new();
    let mut index: usize = 0;
    while index < summaries.len()
        invariant
            index <= summaries@.len(),
            keys@.len() == index,
            forall|i: int|
                0 <= i < index ==> (#[trigger] keys@[i]) == (
                    summaries@[i].id.value,
                    summaries@[i].id.bits as u64,
                ),
        decreases summaries.len() - index,
    {
        keys.push((summaries[index].id.value, summaries[index].id.bits as u64));
        index += 1;
    }
    let order = sort_order(&keys);
    proof {
        assert forall|i: int| 0 <= i < view.len() implies summary_key()(#[trigger] view[i])
            == pair_key(keys@)(i) by {
            assert(keys@[i] == (summaries@[i].id.value, summaries@[i].id.bits as u64));
        }
        lemma_sort_by_picks(view, summary_key(), pair_key(keys@));
    }
    let mut result: Vec<RuleSummary> = Vec::new();
    index = 0;
    while index < order.len()
        invariant
            index <= order@.len(),
            order@.len() == summaries@.len(),
            result@.len() == index,
            view == summaries_view(summaries@),
            forall|i: int| 0 <= i < order@.len() ==> (#[trigger] order@[i]) < summaries@.len(),
            forall|i: int|
                0 <= i < index ==> (#[trigger] result@[i])@ == view[order_view(order@)[i]],
        decreases order.len() - index,
    {
        let summary = &summaries[order[index]];
        result.push(RuleSummary { id: summary.id, nature: summary.nature.clone() });
        index += 1;
    }
    assert(summaries_view(result@) =~= picked(view, order_view(order@)));
    result
}

/// How many rules a converted root container lists, so that the nature of each
/// can be asked for.
pub fn listed_rule_count(root: &JsonValue) -> (result: usize)
    ensures
        match list_member(root@, "rule"@) {
            Some(rules) => result == rules.len(),
            None => result == 0,
        },
{
    match get_list(root, "rule") {
        Some(rules) => rules.len(),
        None => 0,
    }
}

/// Decodes one complete root response into deterministic rule summaries.
///
/// The response must contain exactly one canonical root instance. `answers`
/// are those of the model library: the instances of the payload, the root
/// container by identifiers, whether the model accepts it, and the conversion
/// of each nature.
pub fn decode_rule_list_payload(model: &SidModel, answers: &ListAnswers) -> (result: Result<
    Vec<RuleSummary>,
    InspectionError,
>)
    requires
        answers.root matches Ok(root) ==> (list_member(root@, "rule"@) matches Some(rules)
            ==> answers.natures@.len() >= rules.len()),
    ensures
        match result {
            Ok(summaries) => rule_list(model@, *answers) == Ok::<Seq<SummaryView>, Fault>(
                summaries_view(summaries@),
            ),
            Err(error) => rule_list(model@, *answers) == Err::<Seq<SummaryView>, Fault>(error@),
        },
{
    let root = read_root(model, answers)?;
    let rules = match get_list(root, "rule") {
        Some(rules) => rules,
        None => {
            return Err(unexpected("rule-list response root did not contain a rule array"));
        },
    };
    assert(list_view(rules@).len() == rules@.len());
    let summaries = summarize_all(model, rules, &answers.natures)?;
    Ok(order_summaries(&summaries))
}

/// A decoded rule list names every rule once.
pub proof fn decoded_list_has_no_duplicates(
    model: ModelView,
    rules: Seq<Json>,
    count: nat,
    converted: Seq<Result<Json, Seq<char>>>,
)
    requires
        listed_summaries(model, rules, count, converted) is Ok,
    ensures
        ({
            let summaries = listed_summaries(model, rules, count, converted)->Ok_0;
            &&& summaries.len() == count
            &&& forall|i: int, j: int|
                0 <= i < j < summaries.len() ==> (#[trigger] summaries[i]).id != (
                #[trigger] summaries[j]).id
        }),
    decreases count,
{
    if count > 0 {
        decoded_list_has_no_duplicates(model, rules, (count - 1) as nat, converted);
        let before = listed_summaries(model, rules, (count - 1) as nat, converted)->Ok_0;
        let summaries = listed_summaries(model, rules, count, converted)->Ok_0;
        assert forall|i: int, j: int| 0 <= i < j < summaries.len() implies (
        #[trigger] summaries[i]).id != (#[trigger] summaries[j]).id by {
            if j == summaries.len() - 1 {
                assert(before[i] == summaries[i]);
            } else {
                assert(before[i] == summaries[i] && before[j] == summaries[j]);
            }
        }
    }
}

/// What the model and rule libraries answered while a rule was decoded.
#[derive(Debug)]
pub struct DetailAnswers {
    /// The instances of the payload.
    pub instances: Result<Vec<Instance>, String>,
    /// The rule by identifiers.
    pub rule: Result<JsonValue, String>,
    /// The typed rules of a context that holds the rule alone.
    pub typed: Result<Vec<Rule>, String>,
}

/// The first required field that a rule lacks.
pub open spec fn missing_field(rule: Json) -> Option<Seq<char>> {
    if member(rule, "rule-id-value"@) is None {
        Some("rule-id-value"@)
    } else if member(rule, "rule-id-length"@) is None {
        Some("rule-id-length"@)
    } else if member(rule, "rule-nature"@) is None {
        Some("rule-nature"@)
    } else {
        None
    }
}

/// The selector that a complete rule carries.
pub open spec fn carried_selector(rule: Json) -> Result<RuleSelector, Fault> {
    match (unsigned_member(rule, "rule-id-value"@), unsigned_member(rule, "rule-id-length"@)) {
        (None, _) => Err(Fault::UnexpectedResponse("rule-id-value is not numeric"@)),
        (Some(_), None) => Err(Fault::UnexpectedResponse("rule-id-length is not numeric"@)),
        (Some(value), Some(bits)) => if bits > usize::MAX {
            Err(Fault::UnexpectedResponse("rule-id-length is not numeric"@))
        } else {
            selector_of(value, bits as usize)
        },
    }
}

/// Why a converted rule is not the selected one.
pub open spec fn rule_value_fault(model: ModelView, rule: Json, selector: RuleSelector) -> Option<
    Fault,
> {
    match shape_fault(model, rule, "/ietf-schc:schc/rule"@) {
        Some(fault) => Some(fault),
        None => if !(rule is Object) {
            Some(
                Fault::UnexpectedResponse(
                    "rule-get response did not contain a complete rule object"@,
                ),
            )
        } else {
            match missing_field(rule) {
                Some(field) => Some(
                    Fault::UnexpectedResponse(
                        "rule-get response is missing required field '"@ + field + "'"@,
                    ),
                ),
                None => match carried_selector(rule) {
                    Err(fault) => Some(fault),
                    Ok(found) => if found != selector {
                        Some(
                            Fault::UnexpectedResponse(
                                "rule-get response selected RuleID "@ + decimal(
                                    found.value as nat,
                                ) + "/"@ + decimal(found.bits as nat) + " instead of "@ + decimal(
                                    selector.value as nat,
                                ) + "/"@ + decimal(selector.bits as nat),
                            ),
                        )
                    } else {
                        None
                    },
                },
            }
        },
    }
}

/// Why a rule-get response does not hold the selected rule.
pub open spec fn rule_response_fault(
    model: ModelView,
    selector: RuleSelector,
    answers: DetailAnswers,
) -> Option<Fault> {
    match resolved_sids(model) {
        Err(fault) => Some(fault),
        Ok(sids) => match decoded_view(answers.instances) {
            Err(text) => Some(Fault::UnexpectedResponse(text)),
            Ok(instances) => if instances.len() != 1 {
                Some(
                    Fault::UnexpectedResponse(
                        "rule-get response contained "@ + decimal(instances.len())
                            + " instances, expected one"@,
                    ),
                )
            } else if rule_path_fault(
                instances[0].path,
                sids.root as int,
                sids.rule as int,
                selector,
            ) is Some {
                rule_path_fault(instances[0].path, sids.root as int, sids.rule as int, selector)
            } else if instances[0].value is None {
                Some(
                    Fault::UnexpectedResponse("rule-get response contained a deleted rule"@),
                )
            } else {
                match answer_view(answers.rule) {
                    Err(text) => Some(Fault::UnexpectedResponse(text)),
                    Ok(rule) => rule_value_fault(model, rule, selector),
                }
            },
        },
    }
}

/// The rule that a rule-get response holds.
pub open spec fn rule_response(
    model: ModelView,
    selector: RuleSelector,
    answers: DetailAnswers,
) -> Result<DetailView, Fault> {
    match rule_response_fault(model, selector, answers) {
        Some(fault) => Err(fault),
        None => match answers.typed {
            Err(text) => Err(Fault::UnexpectedResponse(text@)),
            Ok(rules) => if rules@.len() != 1 {
                Err(
                    Fault::UnexpectedResponse(
                        "rule-get response reconstructed "@ + decimal(rules@.len())
                            + " rules, expected one"@,
                    ),
                )
            } else if rules@[0]@.id != selector.id() {
                Err(
                    Fault::UnexpectedResponse("rule-get response reconstructed the wrong RuleID"@),
                )
            } else {
                Ok(detail_of(rules@[0]@))
            },
        },
    }
}

fn check_rule_value(model: &SidModel, rule: &JsonValue, selector: RuleSelector) -> (result: Result<
    (),
    InspectionError,
>)
    ensures
        match result {
            Ok(_) => rule_value_fault(model@, rule@, selector) is None,
            Err(error) => rule_value_fault(model@, rule@, selector) == Some(error@),
        },
{
    validate_model_shape(model, rule, "/ietf-schc:schc/rule")?;
    let object = match rule {
        JsonValue::Object(_) => true,
        _ => false,
    };
    if !object {
        return Err(unexpected("rule-get response did not contain a complete rule object"));
    }
    if rule.get("rule-id-value").is_none() {
        return Err(
            unexpected(
                join3(
                    "rule-get response is missing required field '",
                    "rule-id-value",
                    "'",
                ).as_str(),
            ),
        );
    }
    if rule.get("rule-id-length").is_none() {
        return Err(
            unexpected(
                join3(
                    "rule-get response is missing required field '",
                    "rule-id-length",
                    "'",
                ).as_str(),
            ),
        );
    }
    if rule.get("rule-nature").is_none() {
        return Err(
            unexpected(
                join3(
                    "rule-get response is missing required field '",
                    "rule-nature",
                    "'",
                ).as_str(),
            ),
        );
    }
    let value: u64 = match rule.get_u64("rule-id-value") {
        Some(value) => value,
        None => {
            return Err(unexpected("rule-id-value is not numeric"));
        },
    };
    let bits: u64 = match rule.get_u64("rule-id-length") {
        Some(bits) => bits,
        None => {
            return Err(unexpected("rule-id-length is not numeric"));
        },
    };
    if bits > usize::MAX as u64 {
        return Err(unexpected("rule-id-length is not numeric"));
    }
    let found = RuleSelector::new(value, bits as usize)?;
    if found != selector {
        let one = join3(
            join(
                "rule-get response selected RuleID ",
                decimal_string(found.value).as_str(),
            ).as_str(),
            "/",
            decimal_string(found.bits as u64).as_str(),
        );
        let two = join3(
            one.as_str(),
            " instead of ",
            decimal_string(selector.value).as_str(),
        );
        return Err(
            unexpected(
                join3(
                    two.as_str(),
                    "/",
                    decimal_string(selector.bits as u64).as_str(),
                ).as_str(),
            ),
        );
    }
    Ok(())
}

/// The tree of a context that holds one rule alone.
pub open spec fn lone_rule_tree(rule: Json) -> Json {
    Json::Object(
        seq![
            (
                "ietf-schc:schc"@,
                Json::Object(seq![("rule"@, Json::Array(seq![rule]))]),
            ),
        ],
    )
}

/// Builds the tree of a context that holds one rule alone, from which a typed
/// rule is reconstructed.
pub fn remote_rule_tree(rule: &JsonValue) -> (result: JsonValue)
    ensures
        result@ == lone_rule_tree(rule@),
{
    let items: Vec<JsonValue> = vec![rule.copy()];
    let list = JsonValue::Array(items);
    proof {
        lemma_json_view(list);
        assert(list_view(items@) =~= seq![rule@]);
    }
    let ghost list_value = list@;
    let inner: Vec<(String, JsonValue)> = vec![("rule".to_owned(), list)];
    let root = JsonValue::Object(inner);
    proof {
        lemma_json_view(root);
        assert(members_view(inner@) =~= seq![("rule"@, list_value)]);
    }
    let ghost root_value = root@;
    let outer: Vec<(String, JsonValue)> = vec![("ietf-schc:schc".to_owned(), root)];
    let tree = JsonValue::Object(outer);
    proof {
        lemma_json_view(tree);
        assert(members_view(outer@) =~= seq![("ietf-schc:schc"@, root_value)]);
    }
    tree
}

/// Decodes the exact complete selected-rule response from a device.
///
/// The typed rule comes from the response, not from the caller's own context.
/// `answers` are those of the model and rule libraries.
pub fn decode_rule_detail_payload(
    model: &SidModel,
    selector: RuleSelector,
    answers: &DetailAnswers,
) -> (result: Result<RuleDetail, InspectionError>)
    ensures
        match result {
            Ok(detail) => rule_response(model@, selector, *answers) == Ok::<DetailView, Fault>(
                detail@,
            ),
            Err(error) => rule_response(model@, selector, *answers) == Err::<DetailView, Fault>(
                error@,
            ),
        },
{
    let sids = ModelSids::resolve(model)?;
    let instances = match &answers.instances {
        Ok(instances) => instances,
        Err(text) => {
            return Err(unexpected(text.as_str()));
        },
    };
    if instances.len() != 1 {
        return Err(
            unexpected(
                join3(
                    "rule-get response contained ",
                    decimal_string(instances.len() as u64).as_str(),
                    " instances, expected one",
                ).as_str(),
            ),
        );
    }
    assert(instances_view(instances@)[0] == instances@[0]@);
    validate_rule_instance_path(&instances[0].path, sids.root, sids.rule, selector)?;
    if instances[0].value.is_none() {
        return Err(unexpected("rule-get response contained a deleted rule"));
    }
    match &answers.rule {
        Ok(rule) => check_rule_value(model, rule, selector)?,
        Err(text) => {
            return Err(unexpected(text.as_str()));
        },
    }
    let rules = match &answers.typed {
        Ok(rules) => rules,
        Err(text) => {
            return Err(unexpected(text.as_str()));
        },
    };
    if rules.len() != 1 {
        return Err(
            unexpected(
                join3(
                    "rule-get response reconstructed ",
                    decimal_string(rules.len() as u64).as_str(),
                    " rules, expected one",
                ).as_str(),
            ),
        );
    }
    if rules[0].id != selector.rule_id() {
        return Err(unexpected("rule-get response reconstructed the wrong RuleID"));
    }
    Ok(detail_from_rule(&rules[0]))
}

/// The nature of a rule is one of four names, and it is the part of its
/// identifier behind the last colon, without `nature-`.
pub proof fn nature_is_one_of_four(
    model: ModelView,
    value: Json,
    converted: Result<Json, Seq<char>>,
)
    requires
        nature_of(model, value, converted) is Ok,
    ensures
        ({
            let nature = nature_of(model, value, converted)->Ok_0;
            let identifier = nature_identifier(model, value, converted)->Ok_0;
            let segment = after_last(identifier, ':');
            &&& nature == "compression"@ || nature == "no-compression"@ || nature
                == "fragmentation"@ || nature == "management"@
            &&& nature_identifier(model, value, converted) is Ok
            &&& segment == nature || segment == "nature-"@ + nature
        }),
{
    let identifier = nature_identifier(model, value, converted)->Ok_0;
    let segment = after_last(identifier, ':');
    let nature = nature_of(model, value, converted)->Ok_0;
    if "nature-"@.is_prefix_of(segment) {
        assert(segment =~= "nature-"@ + nature);
    }
}

/// A nature that is a text names itself; another one is what the model makes
/// of it, where a number stands for the node with that SID.
pub proof fn nature_identifier_is_that_of_the_value(
    model: ModelView,
    value: Json,
    converted: Result<Json, Seq<char>>,
)
    ensures
        value matches Json::Text(text) ==> nature_identifier(model, value, converted) == Ok::<
            Seq<char>,
            Fault,
        >(text),
        !(value is Text) && converted is Err ==> nature_identifier(model, value, converted) is Err,
        !(value is Text) && converted is Ok && converted->Ok_0 is Text ==> nature_identifier(
            model,
            value,
            converted,
        ) == Ok::<Seq<char>, Fault>(converted->Ok_0->Text_0),
        !(value is Text) && converted is Ok && converted->Ok_0 is Integer && nature_identifier(
            model,
            value,
            converted,
        ) is Ok ==> i64::MIN <= converted->Ok_0->Integer_0 <= i64::MAX && identifier_of(
            model,
            converted->Ok_0->Integer_0 as i64,
        ) == Some(nature_identifier(model, value, converted)->Ok_0),
        !(value is Text) && converted is Ok && !(converted->Ok_0 is Text) && !(
        converted->Ok_0 is Integer) ==> nature_identifier(model, value, converted) is Err,
{
}

/// The summary of a listed rule has the value, the bit length and the nature
/// that the rule holds under their names.
pub proof fn listed_summary_is_that_of_the_rule(
    model: ModelView,
    rule: Json,
    converted: Result<Json, Seq<char>>,
)
    requires
        listed_summary(model, rule, converted) is Ok,
    ensures
        rule is Object,
        unsigned_member(rule, "rule-id-value"@) == Some(
            listed_summary(model, rule, converted)->Ok_0.id.value,
        ),
        unsigned_member(rule, "rule-id-length"@) == Some(
            listed_summary(model, rule, converted)->Ok_0.id.bits as u64,
        ),
        member(rule, "rule-nature"@) is Some,
        nature_of(model, member(rule, "rule-nature"@)->0, converted) == Ok::<Seq<char>, Fault>(
            listed_summary(model, rule, converted)->Ok_0.nature,
        ),
{
}

proof fn lemma_every_rule_is_listed(
    model: ModelView,
    rules: Seq<Json>,
    count: nat,
    converted: Seq<Result<Json, Seq<char>>>,
)
    requires
        listed_summaries(model, rules, count, converted) is Ok,
    ensures
        listed_summaries(model, rules, count, converted)->Ok_0.len() == count,
        forall|i: int|
            0 <= i < count ==> listed_summary(model, #[trigger] rules[i], converted[i]) == Ok::<
                SummaryView,
                Fault,
            >(listed_summaries(model, rules, count, converted)->Ok_0[i]),
    decreases count,
{
    if count > 0 {
        lemma_every_rule_is_listed(model, rules, (count - 1) as nat, converted);
        let before = listed_summaries(model, rules, (count - 1) as nat, converted)->Ok_0;
        let summaries = listed_summaries(model, rules, count, converted)->Ok_0;
        assert forall|i: int| 0 <= i < count implies listed_summary(
            model,
            #[trigger] rules[i],
            converted[i],
        ) == Ok::<SummaryView, Fault>(summaries[i]) by {
            if i < count - 1 {
                assert(summaries[i] == before[i]);
            }
        }
    }
}

/// A decoded rule list holds the summary of every rule of the answer, once,
/// ordered by value and then by bit length.
pub proof fn decoded_list_is_complete_and_ordered(model: ModelView, answers: ListAnswers)
    requires
        rule_list(model, answers) is Ok,
    ensures
        ({
            let list = rule_list(model, answers)->Ok_0;
            let rules = member(list_root(model, answers)->Ok_0, "rule"@)->0->Array_0;
            &&& list_root(model, answers) is Ok
            &&& member(list_root(model, answers)->Ok_0, "rule"@) is Some
            &&& member(list_root(model, answers)->Ok_0, "rule"@)->0 is Array
            &&& list.len() == rules.len()
            &&& forall|i: int|
                0 <= i < rules.len() ==> listed_summary(
                    model,
                    #[trigger] rules[i],
                    conversions_view(answers.natures@)[i],
                ) is Ok && list.contains(
                    listed_summary(
                        model,
                        rules[i],
                        conversions_view(answers.natures@)[i],
                    )->Ok_0,
                )
            &&& forall|i: int, j: int|
                0 <= i <= j < list.len() ==> (#[trigger] list[i]).id.value < (
                #[trigger] list[j]).id.value || (list[i].id.value == list[j].id.value
                    && list[i].id.bits <= list[j].id.bits)
        }),
{
    broadcast use vstd::seq_lib::group_to_multiset_ensures;

    let rules = list_member(list_root(model, answers)->Ok_0, "rule"@)->0;
    let converted = conversions_view(answers.natures@);
    let summaries = listed_summaries(model, rules, rules.len(), converted)->Ok_0;
    let list = rule_list(model, answers)->Ok_0;
    lemma_every_rule_is_listed(model, rules, rules.len(), converted);
    crate::sort::sorting_orders_and_keeps_items(summaries, summary_key());
    assert forall|i: int| 0 <= i < rules.len() implies listed_summary(
        model,
        #[trigger] rules[i],
        converted[i],
    ) is Ok && list.contains(listed_summary(model, rules[i], converted[i])->Ok_0) by {
        assert(summaries.contains(summaries[i]));
        assert(summaries.to_multiset().count(summaries[i]) > 0);
        assert(list.to_multiset().count(summaries[i]) > 0);
    }
    let key = summary_key();
    assert forall|i: int, j: int| 0 <= i <= j < list.len() implies (#[trigger] list[i]).id.value < (
    #[trigger] list[j]).id.value || (list[i].id.value == list[j].id.value && list[i].id.bits
        <= list[j].id.bits) by {
        assert(sort_by(summaries, key)[i] == list[i] && sort_by(summaries, key)[j] == list[j]);
        assert(key(list[i]) == (list[i].id.value as int, list[i].id.bits as int));
        assert(key(list[j]) == (list[j].id.value as int, list[j].id.bits as int));
    }
}

/// The root of a rule list is the one instance of the answer, at the root
/// node, and the model accepted it.
pub proof fn list_root_is_the_single_instance(model: ModelView, answers: ListAnswers)
    requires
        list_root(model, answers) is Ok,
    ensures
        resolved_sids(model) is Ok,
        decoded_view(answers.instances) is Ok,
        decoded_view(answers.instances)->Ok_0.len() == 1,
        decoded_view(answers.instances)->Ok_0[0].path == seq![
            Step::Delta(resolved_sids(model)->Ok_0.root as int),
        ],
        decoded_view(answers.instances)->Ok_0[0].value is Some,
        !(decoded_view(answers.instances)->Ok_0[0].value->0 is Null),
        answers.accepted is Ok,
        answers.root is Ok,
        answers.root->Ok_0@ == list_root(model, answers)->Ok_0,
{
}

/// A decoded rule is the selected one: it stands alone in the answer, at the
/// path of the selected rule, and carries the selected value and bit length.
pub proof fn decoded_rule_is_the_selected_one(
    model: ModelView,
    selector: RuleSelector,
    answers: DetailAnswers,
)
    requires
        rule_response(model, selector, answers) is Ok,
    ensures
        resolved_sids(model) is Ok,
        decoded_view(answers.instances) is Ok,
        decoded_view(answers.instances)->Ok_0.len() == 1,
        decoded_view(answers.instances)->Ok_0[0].value is Some,
        rule_path_fault(
            decoded_view(answers.instances)->Ok_0[0].path,
            resolved_sids(model)->Ok_0.root as int,
            resolved_sids(model)->Ok_0.rule as int,
            selector,
        ) is None,
        answers.rule is Ok,
        answers.rule->Ok_0@ is Object,
        unsigned_member(answers.rule->Ok_0@, "rule-id-value"@) == Some(selector.value),
        unsigned_member(answers.rule->Ok_0@, "rule-id-length"@) == Some(selector.bits as u64),
        member(answers.rule->Ok_0@, "rule-nature"@) is Some,
        shape_fault(model, answers.rule->Ok_0@, "/ietf-schc:schc/rule"@) is None,
        answers.typed is Ok,
        answers.typed->Ok_0@.len() == 1,
        answers.typed->Ok_0@[0]@.id.value == selector.value,
        answers.typed->Ok_0@[0]@.id.bit_len == selector.bits,
        rule_response(model, selector, answers)->Ok_0 == detail_of(answers.typed->Ok_0@[0]@),
{
}

/// The tree of a lone rule has a root that holds a list with that rule alone.
pub proof fn lone_rule_is_the_only_one(rule: Json)
    ensures
        member(lone_rule_tree(rule), "ietf-schc:schc"@) is Some,
        member(member(lone_rule_tree(rule), "ietf-schc:schc"@)->0, "rule"@) == Some(
            Json::Array(seq![rule]),
        ),
{
    let outer = lone_rule_tree(rule)->Object_0;
    assert(outer[0].0 == "ietf-schc:schc"@);
    let inner = outer[0].1->Object_0;
    assert(inner[0].0 == "rule"@);
}

/// A listed rule is summarized exactly when it is an object with a valid
/// identity and a nature.
pub proof fn complete_rule_is_summarized(
    model: ModelView,
    rule: Json,
    converted: Result<Json, Seq<char>>,
)
    ensures
        listed_summary(model, rule, converted) is Ok <==> {
            let value = unsigned_member(rule, "rule-id-value"@);
            let bits = unsigned_member(rule, "rule-id-length"@);
            let nature = member(rule, "rule-nature"@);
            &&& rule is Object
            &&& value is Some
            &&& bits is Some
            &&& bits->0 <= usize::MAX
            &&& selector_of(value->0, bits->0 as usize) is Ok
            &&& nature is Some
            &&& nature_of(model, nature->0, converted) is Ok
        },
{
}

/// A rule-list answer has a root exactly when it is one instance at the root
/// node with a value that the model reads and accepts.
pub proof fn list_root_is_read_from_a_single_instance(model: ModelView, answers: ListAnswers)
    ensures
        list_root(model, answers) is Ok <==> {
            let instances = decoded_view(answers.instances);
            &&& resolved_sids(model) is Ok
            &&& instances is Ok
            &&& instances->Ok_0.len() == 1
            &&& instances->Ok_0[0].path == seq![Step::Delta(resolved_sids(model)->Ok_0.root as int)]
            &&& instances->Ok_0[0].value is Some
            &&& !(instances->Ok_0[0].value->0 is Null)
            &&& answers.root is Ok
            &&& answers.accepted is Ok
        },
{
}

} // verus!
