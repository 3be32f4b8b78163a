//! What a transfer does besides moving bytes: messages to the other side, and
//! what the user sees.

use crate::progress::Tick;
use crate::protocol::{Message, TransferProtocol};
use vstd::prelude::*;

verus! {

/// Which way a transfer goes.
#[derive(Clone, Copy, Debug, PartialEq, Eq, Structural)]
pub enum Direction {
    In,
    Out,
}

/// Something that a transfer does.
#[derive(Debug)]
pub enum Effect {
    /// Transfer `id` can be cancelled from now on.
    Register { id: String },
    /// Transfer `id` can no longer be cancelled.
    Unregister { id: String },
    /// Request `id` waits for the user's answer from now on.
    Await { id: String },
    /// Request `id` waits no longer.
    Forget { id: String },
    /// The window comes to the front.
    ShowWindow,
    /// The system shows a notification.
    Notify { title: String, body: String },
    /// The user is asked whether the transfer is welcome.
    Request { id: String, total_size: u64, total_files: u32 },
    /// The user is asked no longer: the time for the answer has run out.
    Expired { id: String },
    /// A transfer begins.
    Initiated { id: String, text: String, dir: Direction },
    /// A transfer that goes out has been accepted.
    Assigned { id: String },
    /// A message goes to the other side.
    Send(TransferProtocol),
    /// The user sees how far the transfer has come, and where it went once it is
    /// complete.
    Progress { dir: Direction, id: String, text: String, tick: Tick, path: Option<String> },
    /// The user sees that the transfer was cancelled.
    Cancelled { dir: Direction, id: String, pct: u32, text: String },
    /// The user sees that the transfer is complete, and where it went.
    Complete { id: String, text: String, destination: String },
    /// The user sees that a file did not arrive as it was sent.
    Warning { id: String, file: String },
    /// The user sees that the transfer failed.
    Failed { id: String, error: String },
}

/// What an effect says.
pub enum EffectView {
    Register { id: Seq<char> },
    Unregister { id: Seq<char> },
    Await { id: Seq<char> },
    Forget { id: Seq<char> },
    ShowWindow,
    Notify { title: Seq<char>, body: Seq<char> },
    Request { id: Seq<char>, total_size: u64, total_files: u32 },
    Expired { id: Seq<char> },
    Initiated { id: Seq<char>, text: Seq<char>, dir: Direction },
    Assigned { id: Seq<char> },
    Send(Message),
    Progress {
        dir: Direction,
        id: Seq<char>,
        text: Seq<char>,
        tick: Tick,
        path: Option<Seq<char>>,
    },
    Cancelled { dir: Direction, id: Seq<char>, pct: u32, text: Seq<char> },
    Complete { id: Seq<char>, text: Seq<char>, destination: Seq<char> },
    Warning { id: Seq<char>, file: Seq<char> },
    Failed { id: Seq<char>, error: Seq<char> },
}

/// The text that is there, if one is.
pub open spec fn text_view(text: Option<String>) -> Option<Seq<char>> {
    match text {
        Some(t) => Some(t@),
        None => None,
    }
}

impl View for Effect {
    type V = EffectView;

    open spec fn view(&self) -> EffectView {
        match self {
            Effect::Register { id } => EffectView::Register { id: id@ },
            Effect::Unregister { id } => EffectView::Unregister { id: id@ },
            Effect::Await { id } => EffectView::Await { id: id@ },
            Effect::Forget { id } => EffectView::Forget { id: id@ },
            Effect::ShowWindow => EffectView::ShowWindow,
            Effect::Notify { title, body } => EffectView::Notify { title: title@, body: body@ },
            Effect::Request { id, total_size, total_files } => EffectView::Request {
                id: id@,
                total_size: *total_size,
                total_files: *total_files,
            },
            Effect::Expired { id } => EffectView::Expired { id: id@ },
            Effect::Initiated { id, text, dir } => EffectView::Initiated {
                id: id@,
                text: text@,
                dir: *dir,
            },
            Effect::Assigned { id } => EffectView::Assigned { id: id@ },
            Effect::Send(message) => EffectView::Send(message@),
            Effect::Progress { dir, id, text, tick, path } => EffectView::Progress {
                dir: *dir,
                id: id@,
                text: text@,
                tick: *tick,
                path: text_view(*path),
            },
            Effect::Cancelled { dir, id, pct, text } => EffectView::Cancelled {
                dir: *dir,
                id: id@,
                pct: *pct,
                text: text@,
            },
            Effect::Complete { id, text, destination } => EffectView::Complete {
                id: id@,
                text: text@,
                destination: destination@,
            },
            Effect::Warning { id, file } => EffectView::Warning { id: id@, file: file@ },
            Effect::Failed { id, error } => EffectView::Failed { id: id@, error: error@ },
        }
    }
}

/// What effects say, one after the other.
pub open spec fn effects_view(effects: Seq<Effect>) -> Seq<EffectView> {
    effects.map_values(|effect: Effect| effect@)
}

/// The identifier that an effect names, if it names one.
pub open spec fn named_by(effect: EffectView) -> Option<Seq<char>> {
    match effect {
        EffectView::Register { id } => Some(id),
        EffectView::Unregister { id } => Some(id),
        EffectView::Await { id } => Some(id),
        EffectView::Forget { id } => Some(id),
        EffectView::ShowWindow => None,
        EffectView::Notify { .. } => None,
        EffectView::Request { id, .. } => Some(id),
        EffectView::Expired { id } => Some(id),
        EffectView::Initiated { id, .. } => Some(id),
        EffectView::Assigned { id } => Some(id),
        EffectView::Send(_) => None,
        EffectView::Progress { id, .. } => Some(id),
        EffectView::Cancelled { id, .. } => Some(id),
        EffectView::Complete { id, .. } => Some(id),
        EffectView::Warning { id, .. } => Some(id),
        EffectView::Failed { id, .. } => Some(id),
    }
}

/// Every effect that names an identifier names `id`.
pub open spec fn all_name(effects: Seq<EffectView>, id: Seq<char>) -> bool {
    forall|i: int|
        0 <= i < effects.len() ==> (named_by(#[trigger] effects[i]) is Some ==> named_by(
            effects[i],
        ) == Some(id))
}

/// Two effects that are seen alike are alike, in every text and in every number.
pub proof fn effects_are_seen_as_they_are(a: Effect, b: Effect)
    requires
        a@ == b@,
    ensures
        a is Register <==> b is Register,
        a is Register ==> a->Register_id@ == b->Register_id@,
        a is Unregister <==> b is Unregister,
        a is Unregister ==> a->Unregister_id@ == b->Unregister_id@,
        a is Await <==> b is Await,
        a is Await ==> a->Await_id@ == b->Await_id@,
        a is Forget <==> b is Forget,
        a is Forget ==> a->Forget_id@ == b->Forget_id@,
        a is ShowWindow <==> b is ShowWindow,
        a is Notify <==> b is Notify,
        a is Notify ==> a->title@ == b->title@ && a->body@ == b->body@,
        a is Request <==> b is Request,
        a is Request ==> {
            &&& a->Request_id@ == b->Request_id@
            &&& a->total_size == b->total_size
            &&& a->total_files == b->total_files
        },
        a is Expired <==> b is Expired,
        a is Expired ==> a->Expired_id@ == b->Expired_id@,
        a is Initiated <==> b is Initiated,
        a is Initiated ==> {
            &&& a->Initiated_id@ == b->Initiated_id@
            &&& a->Initiated_text@ == b->Initiated_text@
            &&& a->Initiated_dir == b->Initiated_dir
        },
        a is Assigned <==> b is Assigned,
        a is Assigned ==> a->Assigned_id@ == b->Assigned_id@,
        a is Send <==> b is Send,
        a is Send ==> a->Send_0@ == b->Send_0@,
        a is Progress <==> b is Progress,
        a is Progress ==> {
            &&& a->Progress_dir == b->Progress_dir
            &&& a->Progress_id@ == b->Progress_id@
            &&& a->Progress_text@ == b->Progress_text@
            &&& a->tick == b->tick
            &&& a->path is Some <==> b->path is Some
            &&& a->path is Some ==> a->path->0@ == b->path->0@
        },
        a is Cancelled <==> b is Cancelled,
        a is Cancelled ==> {
            &&& a->Cancelled_dir == b->Cancelled_dir
            &&& a->Cancelled_id@ == b->Cancelled_id@
            &&& a->pct == b->pct
            &&& a->Cancelled_text@ == b->Cancelled_text@
        },
        a is Complete <==> b is Complete,
        a is Complete ==> {
            &&& a->Complete_id@ == b->Complete_id@
            &&& a->Complete_text@ == b->Complete_text@
            &&& a->destination@ == b->destination@
        },
        a is Warning <==> b is Warning,
        a is Warning ==> a->Warning_id@ == b->Warning_id@ && a->file@ == b->file@,
        a is Failed <==> b is Failed,
        a is Failed ==> a->Failed_id@ == b->Failed_id@ && a->error@ == b->error@,
{
}

/// An effect is seen under the identifier that it has, and effects are seen one by one, in
/// their order.
pub proof fn an_effect_is_seen_under_its_id(effects: Seq<Effect>, i: int)
    requires
        0 <= i < effects.len(),
    ensures
        effects_view(effects).len() == effects.len(),
        effects[i] is Register ==> effects_view(effects)[i] == (EffectView::Register {
            id: effects[i]->Register_id@,
        }),
        effects[i] is Unregister ==> effects_view(effects)[i] == (EffectView::Unregister {
            id: effects[i]->Unregister_id@,
        }),
        effects[i] is Await ==> effects_view(effects)[i] == (EffectView::Await {
            id: effects[i]->Await_id@,
        }),
        effects[i] is Forget ==> effects_view(effects)[i] == (EffectView::Forget {
            id: effects[i]->Forget_id@,
        }),
        effects[i] is Request ==> effects_view(effects)[i] == (EffectView::Request {
            id: effects[i]->Request_id@,
            total_size: effects[i]->total_size,
            total_files: effects[i]->total_files,
        }),
        effects[i] is Complete ==> effects_view(effects)[i] == (EffectView::Complete {
            id: effects[i]->Complete_id@,
            text: effects[i]->Complete_text@,
            destination: effects[i]->destination@,
        }),
        effects[i] is Warning ==> effects_view(effects)[i] == (EffectView::Warning {
            id: effects[i]->Warning_id@,
            file: effects[i]->file@,
        }),
        effects[i] is Failed ==> effects_view(effects)[i] == (EffectView::Failed {
            id: effects[i]->Failed_id@,
            error: effects[i]->error@,
        }),
        effects[i] is Send ==> effects_view(effects)[i] == EffectView::Send(effects[i]->Send_0@),
{
}

} // verus!
