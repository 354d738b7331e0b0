//! Which hooks run, where, and what their failure means.

use crate::hooks::{
    command_failure, commands_of, create_due, guest_dir_of, hook_failure, lacking_from, member_failures, members_of,
    missing_upto, start_after, unmet, EndedView, LabelledView, LackingView, StartStep,
};
use crate::plan::{HookCommandView, HookView, PlanView};
use crate::text::trimmed;
use crate::units::version_of;
use vstd::prelude::*;

verus! {

/// The steps of a start, one after the other, the last of which is `Done`.
pub open spec fn steps_from(
    p: PlanView,
    generation: Option<Seq<char>>,
    stamp: Option<Seq<char>>,
    last: Option<StartStep>,
    fuel: nat,
) -> Seq<StartStep>
    decreases fuel,
{
    if fuel == 0 {
        Seq::empty()
    } else {
        let s = start_after(p, generation, stamp, last);
        if s is Done {
            seq![s]
        } else {
            seq![s] + steps_from(p, generation, stamp, Some(s), (fuel - 1) as nat)
        }
    }
}

/// A start runs the creation hook first where it is due, and stamps it once it has run and there is
/// a generation to stamp it for; then the start hook, which runs on every start; and is done.
pub proof fn law_start_runs_its_hooks(p: PlanView, generation: Option<Seq<char>>, stamp: Option<Seq<char>>)
    ensures
        ({
            let due = p.hooks.create is Some && !(generation is Some && stamp is Some && trimmed(stamp->0)
                == generation->0);
            let created = if !due {
                Seq::<StartStep>::empty()
            } else if generation is Some {
                seq![StartStep::RunCreate, StartStep::StampCreate]
            } else {
                seq![StartStep::RunCreate]
            };
            let started = if p.hooks.start is Some {
                seq![StartStep::RunStart]
            } else {
                Seq::<StartStep>::empty()
            };
            steps_from(p, generation, stamp, None, 4) == created + started + seq![StartStep::Done]
        }),
{
    reveal_with_fuel(steps_from, 5);
    let s = steps_from(p, generation, stamp, None, 4);
    let due = p.hooks.create is Some && !(generation is Some && stamp is Some && trimmed(stamp->0) == generation->0);
    assert(due == create_due(p, generation, stamp));
    let created = if !due {
        Seq::<StartStep>::empty()
    } else if generation is Some {
        seq![StartStep::RunCreate, StartStep::StampCreate]
    } else {
        seq![StartStep::RunCreate]
    };
    let started = if p.hooks.start is Some {
        seq![StartStep::RunStart]
    } else {
        Seq::<StartStep>::empty()
    };
    assert(s =~= created + started + seq![StartStep::Done]);
}

proof fn lemma_members(h: HookView, name: Seq<char>, n: int, i: int, x: LabelledView)
    requires
        h is Group,
        0 <= i < n <= h->Group_0.len(),
        commands_of(h->Group_0[i].1, name + "."@ + h->Group_0[i].0).contains(x),
    ensures
        members_of(h, name, n).contains(x),
    decreases n,
{
    let g = h->Group_0;
    let had = members_of(h, name, n - 1);
    let more = commands_of(g[n - 1].1, name + "."@ + g[n - 1].0);
    let now = members_of(h, name, n);
    assert(now == had + more);
    if i < n - 1 {
        lemma_members(h, name, n - 1, i, x);
        let j = choose|j: int| 0 <= j < had.len() && had[j] == x;
        assert(now[j] == x);
    } else {
        let j = choose|j: int| 0 <= j < more.len() && more[j] == x;
        assert(now[had.len() + j] == x);
    }
}

/// A command is itself under the hook's name, and every command of a member is one of its group,
/// under the member's name behind the group's.
pub proof fn law_commands_of_a_hook(h: HookView, name: Seq<char>, i: int, x: LabelledView)
    ensures
        h matches HookView::Command(c) ==> commands_of(h, name) == seq![LabelledView { label: name, command: c }],
        h matches HookView::Group(g) ==> (0 <= i < g.len() && commands_of(g[i].1, name + "."@ + g[i].0).contains(x)
            ==> commands_of(h, name).contains(x)),
{
    if let HookView::Group(g) = h {
        if 0 <= i < g.len() && commands_of(g[i].1, name + "."@ + g[i].0).contains(x) {
            lemma_members(h, name, g.len() as int, i, x);
        }
    }
}

/// Where the results of a member's commands begin among those of its group.
pub open spec fn results_from(h: HookView, name: Seq<char>, from: int, n: int) -> int
    decreases n,
{
    if n <= 0 || !(h is Group) || n > h->Group_0.len() {
        from
    } else {
        results_from(h, name, from, n - 1) + commands_of(
            h->Group_0[n - 1].1,
            name + "."@ + h->Group_0[n - 1].0,
        ).len()
    }
}

proof fn lemma_failures(h: HookView, name: Seq<char>, results: Seq<Option<Seq<char>>>, from: int, n: int)
    requires
        h is Group,
        0 <= n <= h->Group_0.len(),
    ensures
        member_failures(h, name, results, from, n).1 == results_from(h, name, from, n),
        member_failures(h, name, results, from, n).0.len() == 0 <==> forall|i: int|
            0 <= i < n ==> hook_failure(
                (#[trigger] h->Group_0[i]).1,
                name + "."@ + h->Group_0[i].0,
                results,
                results_from(h, name, from, i),
            ) is None,
    decreases n,
{
    if n > 0 {
        lemma_failures(h, name, results, from, n - 1);
        let g = h->Group_0;
        let (had, at) = member_failures(h, name, results, from, n - 1);
        let f = hook_failure(g[n - 1].1, name + "."@ + g[n - 1].0, results, at);
        if f is None && had.len() == 0 {
            assert forall|i: int| 0 <= i < n implies hook_failure(
                (#[trigger] g[i]).1,
                name + "."@ + g[i].0,
                results,
                results_from(h, name, from, i),
            ) is None by {
                if i < n - 1 {
                    assert(h->Group_0[i] == g[i]);
                }
            }
        } else if f is Some {
            assert(h->Group_0[n - 1] == g[n - 1]);
        }
    }
}

/// A hook fails exactly where a command of it that is required did: what is best effort fails
/// nothing, and a group fails where one of its members does.
pub proof fn law_what_a_hook_fails_on(h: HookView, name: Seq<char>, results: Seq<Option<Seq<char>>>, from: int)
    requires
        0 <= from < results.len(),
    ensures
        h matches HookView::Command(c) ==> hook_failure(h, name, results, from) == (if c.required {
            results[from]
        } else {
            None
        }),
        h matches HookView::Group(g) ==> (hook_failure(h, name, results, from) is None <==> forall|i: int|
            0 <= i < g.len() ==> hook_failure(
                (#[trigger] g[i]).1,
                name + "."@ + g[i].0,
                results,
                results_from(h, name, from, i),
            ) is None),
{
    if let HookView::Group(g) = h {
        lemma_failures(h, name, results, from, g.len() as int);
    }
}

/// A command succeeded exactly where it ended well: with no code or with 0, and in its time.
pub proof fn law_ended_well(c: HookCommandView, label: Seq<char>, e: EndedView)
    ensures
        command_failure(c, label, e) is None <==> (e is Succeeded || e == EndedView::Exited(None) || e
            == EndedView::Exited(Some(0))),
{
}

/// A hook in the guest runs where it says: at an absolute directory as it stands, at a relative one
/// from the workspace folder, and else in that folder.
pub proof fn law_guest_directory(cwd: Option<Seq<char>>, folder: Option<Seq<char>>)
    ensures
        cwd is None ==> guest_dir_of(cwd, folder) == folder,
        cwd matches Some(d) ==> (d.len() > 0 && d[0] == '/' ==> guest_dir_of(cwd, folder) == cwd),
        cwd matches Some(d) ==> (!(d.len() > 0 && d[0] == '/') ==> (folder matches Some(f) ==> guest_dir_of(
            cwd,
            folder,
        ) == Some(f + "/"@ + d))),
{
    reveal_strlit("/");
    assert("/"@ =~= seq!['/']);
    if let Some(d) = cwd {
        if d.len() > 0 {
            assert(d.take(1)[0] == d[0]);
            if d[0] == '/' {
                assert(d.take(1) =~= "/"@);
            }
        }
    }
}

proof fn lemma_lacking(found: Seq<LackingView>, feature: Seq<char>, from: int)
    requires
        0 <= from <= found.len(),
    ensures
        lacking_from(found, feature, from) is Some <==> exists|i: int|
            from <= i < found.len() && (#[trigger] found[i]).feature == feature,
    decreases found.len() - from,
{
    if from < found.len() && found[from].feature != feature {
        lemma_lacking(found, feature, from + 1);
    }
}

proof fn lemma_missing(features: Seq<Seq<char>>, known: Seq<Seq<char>>, found: Seq<LackingView>, n: int)
    requires
        0 <= n <= features.len(),
    ensures
        missing_upto(features, known, found, n) is Ok <==> forall|i: int|
            0 <= i < n ==> known.contains(#[trigger] features[i]),
        missing_upto(features, known, found, n) matches Ok(m) ==> (m.len() == 0 <==> forall|i: int, j: int|
            0 <= i < n && 0 <= j < found.len() ==> (#[trigger] found[j]).feature != #[trigger] features[i]),
    decreases n,
{
    if n > 0 {
        lemma_missing(features, known, found, n - 1);
        let name = features[n - 1];
        lemma_lacking(found, name, 0);
        if missing_upto(features, known, found, n) is Ok {
            assert forall|i: int| 0 <= i < n implies known.contains(#[trigger] features[i]) by {
                if i == n - 1 {
                    assert(known.contains(name));
                }
            }
            let had = missing_upto(features, known, found, n - 1)->Ok_0;
            let now = missing_upto(features, known, found, n)->Ok_0;
            if now.len() == 0 {
                assert forall|i: int, j: int| 0 <= i < n && 0 <= j < found.len() implies (#[trigger] found[j]).feature
                    != #[trigger] features[i] by {
                    if i == n - 1 {
                        assert(lacking_from(found, name, 0) is None);
                    }
                }
            } else if had.len() == 0 {
                let j = choose|j: int| 0 <= j < found.len() && (#[trigger] found[j]).feature == name;
                assert(found[j].feature == features[n - 1]);
            }
        }
    }
}

/// A boot begins only where this `vk` meets the config: it is no older than the release asked for,
/// and has every feature named, each of which it knows.
pub proof fn law_requirements(
    p: PlanView,
    exe: Seq<u8>,
    release: Seq<char>,
    known: Seq<Seq<char>>,
    found: Seq<LackingView>,
)
    ensures
        unmet(p, exe, release, known, found) is None <==> {
            &&& p.requires.min_version matches Some(min) ==> version_of(min) is Some && version_of(release) is Some
                && !version_of(release)->0.older_than(version_of(min)->0)
            &&& forall|i: int| 0 <= i < p.requires.features.len() ==> known.contains(#[trigger] p.requires.features[i])
            &&& forall|i: int, j: int|
                0 <= i < p.requires.features.len() && 0 <= j < found.len() ==> (#[trigger] found[j]).feature
                    != #[trigger] p.requires.features[i]
        },
{
    lemma_missing(p.requires.features, known, found, p.requires.features.len() as int);
}

} // verus!
