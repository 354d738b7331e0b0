//! What `vk dev` does for each action, and what it says of it.

use crate::cli::{
    endpoint_named, gc_next, next_act, opened, reply_note, reply_shown, units_shown, Act, BroughtUp, DevAction, Event,
    FailedOn, GcStepView, Performed, ReplyView,
};
use crate::endpoints::EndpointStateView;
use crate::list::{EntryView, RowView};
use vstd::prelude::*;

verus! {

/// The action works in an environment that has to be up.
pub open spec fn works_inside(a: DevAction) -> bool {
    ||| a is Up
    ||| a is Shell
    ||| a is Code
    ||| a matches DevAction::Exec { service, .. } && service is None
    ||| a matches DevAction::Service { action } && action is Up
    ||| a matches DevAction::Refresh { dry_run } && !dry_run
}

/// Once the config is resolved, what works in the environment brings it up first, a refresh anew
/// and an `up` without waiting only where it is told not to; a task goes where its policy says; and
/// nothing else boots anything: it is done at once.
pub proof fn law_what_boots(a: DevAction)
    ensures
        ({
            let next = next_act(a, Event::Resolved(true));
            &&& works_inside(a) ==> (next matches Act::BringUp { refresh, wait } && refresh == (a is Refresh) && wait
                == !(a matches DevAction::Up { no_wait } && no_wait))
            &&& a is Task ==> next == Act::Place
            &&& !works_inside(a) && !(a is Task) ==> next == Act::Perform
        }),
        next_act(a, Event::Resolved(false)) == Act::Exit(2),
{
}

/// What an action needs before it is done: the schema nothing, what is of the whole host a
/// directory to start from, and all else a config that resolves.
pub proof fn law_what_is_needed(a: DevAction)
    ensures
        next_act(a, Event::Started) == (if a is Schema {
            Act::Perform
        } else {
            Act::FindDirectory
        }),
        next_act(a, Event::Directory(false)) == Act::Exit(1),
        !(a is Schema) ==> next_act(a, Event::Directory(true)) == (if a is Init || a is List || a is Gc {
            Act::Perform
        } else {
            Act::Resolve
        }),
{
}

/// The process that a boot releases does the work, but for what only brings up; a boot that failed
/// ends the command with the code of what failed.
pub proof fn law_after_the_boot(a: DevAction)
    ensures
        next_act(a, Event::Up(BroughtUp::Parent)) == (if a is Up || a is Refresh {
            Act::Exit(0)
        } else {
            Act::Perform
        }),
        next_act(a, Event::Up(BroughtUp::Failed(FailedOn::Usage))) == Act::Exit(2),
        next_act(a, Event::Up(BroughtUp::Failed(FailedOn::NotCached))) == Act::Exit(3),
        next_act(a, Event::Up(BroughtUp::Failed(FailedOn::Running))) == Act::Exit(1),
        next_act(a, Event::Placed(None)) == Act::Exit(2),
        next_act(a, Event::Placed(Some(true))) == (Act::BringUp { refresh: false, wait: true }),
        next_act(a, Event::Placed(Some(false))) == Act::AfterFork,
        next_act(a, Event::Forked { parent: true }) == Act::Perform,
{
}

/// A command exits as its work did: with its code; 0 for a report that was written and is good; and
/// never with 0 where the work failed, was refused, or came to a bad verdict.
pub proof fn law_exits_as_the_work_did(a: DevAction, written: u8, code: u8)
    ensures
        next_act(a, Event::Performed(Performed::Exited(code))) == Act::Exit(code),
        next_act(a, Event::Performed(Performed::Failed)) == Act::Exit(1),
        next_act(a, Event::Performed(Performed::Refused)) == (if a is Init || a is Logs {
            Act::Exit(2)
        } else {
            Act::Exit(1)
        }),
        next_act(a, Event::Performed(Performed::Reported { written, ok: true })) == Act::Exit(written),
        next_act(a, Event::Performed(Performed::Reported { written, ok: false })) matches Act::Exit(c) && c != 0
            && ((a is Init || a is Doctor || written == 0) ==> c == 1) && (!(a is Init || a is Doctor || written == 0)
            ==> c == written),
{
}

proof fn lemma_named(v: Seq<EndpointStateView>, name: Seq<char>, from: int)
    requires
        0 <= from <= v.len(),
    ensures
        from <= endpoint_named(v, name, from) <= v.len(),
        endpoint_named(v, name, from) < v.len() ==> v[endpoint_named(v, name, from)].name == name,
        forall|i: int| from <= i < endpoint_named(v, name, from) ==> (#[trigger] v[i]).name != name,
    decreases v.len() - from,
{
    if from < v.len() && v[from].name != name {
        lemma_named(v, name, from + 1);
    }
}

/// What is opened is the URL of the endpoint by that name, with a word where it is not published;
/// an endpoint that is not there, or has no URL, is not opened.
pub proof fn law_opened(v: Seq<EndpointStateView>, name: Seq<char>)
    ensures
        match opened(v, name) {
            Ok((url, note)) => exists|i: int|
                0 <= i < v.len() && (#[trigger] v[i]).name == name && v[i].url == Some(url) && (note is None
                    <==> v[i].published),
            Err(_) => (forall|i: int| 0 <= i < v.len() ==> (#[trigger] v[i]).name != name) || exists|i: int|
                0 <= i < v.len() && (#[trigger] v[i]).name == name && v[i].url is None,
        },
{
    lemma_named(v, name, 0);
    let at = endpoint_named(v, name, 0);
    if at < v.len() {
        assert(v[at].name == name);
    }
}

/// What was asked to be removed is removed on a yes, shown and left without anybody to ask, and
/// asked about otherwise; where there is nothing, nothing is asked.
pub proof fn law_gc(
    sel: Seq<RowView>,
    contents: Seq<Seq<EntryView>>,
    yes: bool,
    on_terminal: bool,
    answer: Option<Result<bool, Seq<char>>>,
)
    ensures
        ({
            let s = gc_next(sel, contents, yes, on_terminal, answer);
            &&& sel.len() == 0 ==> (s matches GcStepView::Report(_, code) && code == 0)
            &&& sel.len() > 0 && yes ==> s is Remove
            &&& sel.len() > 0 && !yes && !on_terminal ==> (s matches GcStepView::Report(_, code) && code == 1)
            &&& sel.len() > 0 && !yes && on_terminal ==> match answer {
                None => s is Ask,
                Some(Ok(true)) => s is Remove,
                Some(Ok(false)) => s matches GcStepView::Report(_, code) && code == 0,
                Some(Err(e)) => s == GcStepView::Refuse(e),
            }
        }),
{
}

/// A service reply that went well is printed whole, and one that did not says why apart from what
/// is printed, if only that there is no reason.
pub proof fn law_reply(r: ReplyView)
    ensures
        r.ok <==> reply_note(r) is None,
        !r.ok && r.message.len() > 0 ==> reply_note(r) == Some(r.message),
        !r.ok || r.message.len() == 0 ==> reply_shown(r) == units_shown(r.units, r.units.len() as int),
        r.ok && r.message.len() > 0 ==> reply_shown(r) == units_shown(r.units, r.units.len() as int) + r.message
            + "\n"@,
{
}

} // verus!
