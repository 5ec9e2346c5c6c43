//! Questions to the behaviors of types.

use crate::error::{ErrorView, NodeServiceError};
use crate::json::{Json, Object, Value};
use crate::node::{texts, NodeView};
use crate::protocol::{
    group_replies, replies, replies_from, Outcome, OutcomeView, Reply, ReplyView, Request,
    RequestView, Step, StepView,
};
use crate::reading::{make_node, plain_node};
use crate::service::NodeService;
use vstd::prelude::*;
use vstd::string::*;

verus! {

broadcast use group_replies;

/// A node of a type with some text, by which its behavior is probed.
pub open spec fn probe(node_type: Seq<char>, now: i64) -> NodeView {
    plain_node("probe"@, node_type, "probe content"@, Json::Object(Map::empty()), now)
}

/// Whether nodes of a type can be embedded.
pub open spec fn embeddable_next(node_type: Seq<char>, now: i64, log: Seq<ReplyView>) -> StepView {
    if log.len() == 0 {
        StepView::Ask(RequestView::OwnContent { node: probe(node_type, now) })
    } else {
        match log[0] {
            ReplyView::MaybeText { text } => StepView::Finish(
                OutcomeView::Flag { value: text is Some },
            ),
            _ => StepView::Mismatch,
        }
    }
}

pub open spec fn playbook_failure(errors: Seq<char>) -> StepView {
    StepView::Fail(ErrorView::PlaybookValidationFailed { errors })
}

/// The check of the rules of a playbook: they are read, then each of them, then all are checked.
pub open spec fn playbook_next(properties: Json, log: Seq<ReplyView>) -> StepView {
    if log.len() == 0 {
        StepView::Ask(RequestView::ParseRules { properties })
    } else {
        match log[0] {
            ReplyView::Failed { message } => playbook_failure(
                "Failed to parse playbook rules: "@ + message,
            ),
            ReplyView::Texts { items } => playbook_rule_next(properties, items, 0, log.skip(1)),
            _ => StepView::Mismatch,
        }
    }
}

/// The rules from position `i` on are read.
pub open spec fn playbook_rule_next(
    properties: Json,
    names: Seq<Seq<char>>,
    i: nat,
    log: Seq<ReplyView>,
) -> StepView
    decreases names.len() - i,
{
    if i >= names.len() {
        playbook_check_next(properties, log)
    } else if log.len() == 0 {
        StepView::Ask(RequestView::ParseRule { properties, index: i as usize })
    } else {
        match log[0] {
            ReplyView::Failed { message } => playbook_failure(
                "Failed to parse rule '"@ + names[i as int] + "': "@ + message,
            ),
            ReplyView::Done => playbook_rule_next(properties, names, i + 1, log.skip(1)),
            _ => StepView::Mismatch,
        }
    }
}

pub open spec fn playbook_check_next(properties: Json, log: Seq<ReplyView>) -> StepView {
    if log.len() == 0 {
        StepView::Ask(RequestView::ValidateRules { properties })
    } else {
        match log[0] {
            ReplyView::Failed { message } => playbook_failure(message),
            ReplyView::Done => StepView::Finish(OutcomeView::Nothing),
            _ => StepView::Mismatch,
        }
    }
}

fn playbook_failed(errors: String) -> (r: Step)
    ensures
        r@ == playbook_failure(errors@),
{
    Step::Fail(NodeServiceError::PlaybookValidationFailed { errors })
}

impl NodeService {
    /// Whether nodes of a type can be embedded.
    pub fn is_embeddable_type(&self, node_type: &str, now: i64, log: &Vec<Reply>) -> (r: Step)
        ensures
            r@ == embeddable_next(node_type@, now, replies(log@)),
    {
        if log.len() == 0 {
            let empty = Object::new();
            let node = make_node("probe", node_type, "probe content", Value::Object(empty), now);
            return Step::Ask(Request::OwnContent { node });
        }
        match &log[0] {
            Reply::MaybeText { text } => Step::Finish(Outcome::Flag { value: text.is_some() }),
            _ => Step::Mismatch,
        }
    }

    /// Checks the rules of a playbook.
    pub fn validate_playbook_rules(&self, properties: &Value, log: &Vec<Reply>) -> (r: Step)
        ensures
            r@ == playbook_next(properties@, replies(log@)),
    {
        if log.len() == 0 {
            return Step::Ask(Request::ParseRules { properties: properties.clone() });
        }
        let names = match &log[0] {
            Reply::Failed { message } => {
                let mut text = "Failed to parse playbook rules: ".to_string();
                text.append(message.as_str());
                return playbook_failed(text);
            },
            Reply::Texts { items } => items,
            _ => {
                return Step::Mismatch;
            },
        };
        let ghost all = texts(names@);
        let ghost want = playbook_next(properties@, replies(log@));
        let mut i: usize = 0;
        while i < names.len()
            invariant
                i <= names@.len() == all.len(),
                i + 1 <= log@.len(),
                want == playbook_rule_next(properties@, all, i as nat, replies_from(log@, i + 1)),
            decreases names@.len() - i,
        {
            proof {
                assert(log.len() == log@.len());
                assert(all[i as int] == names@[i as int]@);
            }
            if i + 1 >= log.len() {
                return Step::Ask(Request::ParseRule { properties: properties.clone(), index: i });
            }
            match &log[i + 1] {
                Reply::Failed { message } => {
                    let mut text = "Failed to parse rule '".to_string();
                    text.append(names[i].as_str());
                    text.append("': ");
                    text.append(message.as_str());
                    return playbook_failed(text);
                },
                Reply::Done => {},
                _ => {
                    return Step::Mismatch;
                },
            }
            i += 1;
        }
        proof {
            assert(log.len() == log@.len());
        }
        if i + 1 >= log.len() {
            return Step::Ask(Request::ValidateRules { properties: properties.clone() });
        }
        match &log[i + 1] {
            Reply::Failed { message } => playbook_failed(message.clone()),
            Reply::Done => Step::Finish(Outcome::Nothing),
            _ => Step::Mismatch,
        }
    }
}

} // verus!
