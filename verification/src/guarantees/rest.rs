//! The REST paths.

use crate::error::ErrorView;
use crate::push::dispatcher;
use crate::push::dispatcher::StepView;
use crate::rest::error::RestErrorView;
use crate::rest::handlers;
use crate::rest::handlers::SubscriptionMethod;
use crate::service::PulledView;
use crate::text;
use vstd::prelude::*;

verus! {

/// A path names the resource of its project and of its last segment.
pub proof fn law_paths(project: Seq<char>, id: Seq<char>)
    ensures
        handlers::topic_full_name(project, id) == "projects/"@ + project + "/topics/"@ + id,
        handlers::sub_full_name(project, id) == "projects/"@ + project + "/subscriptions/"@ + id,
{
}

/// The verbs of subscriptions call the methods that are named like them, and no other verb calls one.
pub proof fn law_verbs(verb: Seq<char>)
    ensures
        handlers::method_of(Some("pull"@)) == Some(SubscriptionMethod::Pull),
        handlers::method_of(Some("acknowledge"@)) == Some(SubscriptionMethod::Acknowledge),
        handlers::method_of(Some("modifyAckDeadline"@)) == Some(
            SubscriptionMethod::ModifyAckDeadline,
        ),
        handlers::method_of(Some("modifyPushConfig"@)) == Some(
            SubscriptionMethod::ModifyPushConfig,
        ),
        handlers::method_of(None) is None,
        handlers::method_of(Some(verb)) is Some <==> {
            ||| verb == "pull"@
            ||| verb == "acknowledge"@
            ||| verb == "modifyAckDeadline"@
            ||| verb == "modifyPushConfig"@
        },
{
    reveal_strlit("pull");
    reveal_strlit("acknowledge");
    reveal_strlit("modifyAckDeadline");
    reveal_strlit("modifyPushConfig");
    assert("pull"@.len() == 4);
    assert("acknowledge"@.len() == 11);
    assert("modifyAckDeadline"@.len() == 17);
    assert("modifyPushConfig"@.len() == 16);
}

/// A segment is split at its first colon: what stands before it is the id, and what stands behind it
/// is the verb.
pub proof fn law_segments(
    id: Seq<char>,
    verb: Seq<char>,
    found_id: Seq<char>,
    found_verb: Option<Seq<char>>,
)
    requires
        !id.contains(':'),
        handlers::is_split(id + seq![':'] + verb, found_id, found_verb),
    ensures
        found_id == id,
        found_verb == Some(verb),
{
    handlers::law_split_is_unique(
        id + seq![':'] + verb,
        id,
        Some(verb),
        found_id,
        found_verb,
    );
}

/// A method that is not there is answered as not implemented, and named.
pub proof fn law_unknown_methods(raw: Seq<char>)
    ensures
        handlers::no_such_method(raw) == (RestErrorView::Unimplemented {
            message: "no such method on this resource: "@ + text::debug_text(raw),
        }),
{
}

/// A dispatcher sends all that was leased to it, waits when that is nothing, and stops when leasing
/// failed.
pub proof fn law_dispatchers_send_what_they_lease(leased: Result<Seq<PulledView>, ErrorView>)
    ensures
        match leased {
            Ok(m) => if m.len() > 0 {
                dispatcher::step_after(leased) == StepView::Deliver(m)
            } else {
                dispatcher::step_after(leased) == StepView::Wait
            },
            Err(e) => dispatcher::step_after(leased) == StepView::Stop(Some(e)),
        },
{
}

} // verus!
