//! Where an endpoint is reached, and which ports are tried for one.

use crate::endpoints::{
    address_at, forgotten, ports_upto, published, published_upto, states_upto, AllocationView, EndpointStateView,
    WhichView,
};
use crate::entries::entry;
use crate::plan::EndpointView;
use crate::text::decimal;
use vstd::prelude::*;

verus! {

/// The endpoint is one that was asked about: any, one that no service claims, or one of a service.
pub open spec fn asked_about(which: WhichView, e: EndpointView) -> bool {
    ||| which is All
    ||| which is Primary && e.service is None
    ||| which matches WhichView::Service(s) && e.service == Some(s)
}

/// The endpoints among the first `n` that were asked about.
pub open spec fn those(v: Seq<EndpointView>, which: WhichView, n: int) -> Seq<EndpointView>
    decreases n,
{
    if n <= 0 {
        Seq::empty()
    } else if asked_about(which, v[n - 1]) {
        those(v, which, n - 1).push(v[n - 1])
    } else {
        those(v, which, n - 1)
    }
}

/// The host address of an endpoint: the configured one, or the loopback its service was given.
pub open spec fn reached_at(e: EndpointView, alloc: Option<AllocationView>) -> Option<Seq<char>> {
    if e.address != "auto"@ {
        Some(e.address)
    } else if alloc is Some && entry(
        alloc->0.octets,
        if e.service is Some {
            e.service->0
        } else {
            ""@
        },
    ) is Some {
        Some(
            "127.0."@ + decimal(alloc->0.block as nat) + "."@ + decimal(
                entry(
                    alloc->0.octets,
                    if e.service is Some {
                        e.service->0
                    } else {
                        ""@
                    },
                )->0 as nat,
            ),
        )
    } else {
        None
    }
}

/// The state says of the endpoint where it listens, where it leads, at which URL it is opened, and
/// whether it is up.
pub open spec fn tells(s: EndpointStateView, e: EndpointView, alloc: Option<AllocationView>, live: Seq<Seq<char>>) -> bool {
    &&& s.name == e.name && s.service == e.service && s.to == e.to && s.required == e.required
    &&& s.published == live.contains(e.name)
    &&& reached_at(e, alloc) is None ==> s.listen is None && s.url is None
    &&& reached_at(e, alloc) matches Some(a) ==> {
        &&& s.listen == Some("tcp://"@ + a + ":"@ + decimal(e.host_port as nat))
        &&& e.scheme is None ==> s.url is None
        &&& e.scheme is Some && e.path is Some ==> s.url == Some(
            e.scheme->0 + "://"@ + a + ":"@ + decimal(e.host_port as nat) + e.path->0,
        )
        &&& e.scheme is Some && e.path is None ==> s.url == Some(
            e.scheme->0 + "://"@ + a + ":"@ + decimal(e.host_port as nat),
        )
    }
}

/// A listing of endpoints has those that were asked about, in the plan's order, and of each says
/// where it is reached.
pub proof fn law_listing(v: Seq<EndpointView>, which: WhichView, alloc: Option<AllocationView>, live: Seq<Seq<char>>, n: int)
    requires
        0 <= n <= v.len(),
    ensures
        states_upto(v, which, alloc, live, n).len() == those(v, which, n).len(),
        forall|j: int|
            0 <= j < states_upto(v, which, alloc, live, n).len() ==> tells(
                #[trigger] states_upto(v, which, alloc, live, n)[j],
                those(v, which, n)[j],
                alloc,
                live,
            ),
    decreases n,
{
    if n > 0 {
        law_listing(v, which, alloc, live, n - 1);
        let had = states_upto(v, which, alloc, live, n - 1);
        let now = states_upto(v, which, alloc, live, n);
        let (x, y) = (those(v, which, n - 1), those(v, which, n));
        assert forall|j: int| 0 <= j < now.len() implies tells(#[trigger] now[j], y[j], alloc, live) by {
            if j < had.len() {
                assert(now[j] == had[j]);
                assert(y[j] == x[j]);
            } else {
                assert(y[j] == v[n - 1]);
                let e = v[n - 1];
                assert(address_at(alloc, e) == reached_at(e, alloc));
                if e.scheme is Some && e.path is None && reached_at(e, alloc) is Some {
                    reveal_strlit("");
                    let a = reached_at(e, alloc)->0;
                    let u = e.scheme->0 + "://"@ + a + ":"@ + decimal(e.host_port as nat);
                    assert(u + ""@ =~= u);
                }
            }
        }
    }
}

/// The names that are up for a service are those of its endpoints with a publisher, and no other.
pub proof fn law_published(v: Seq<EndpointView>, service: Option<Seq<char>>, live: Seq<Seq<char>>, name: Seq<char>)
    ensures
        published(v, service, live).contains(name) <==> live.contains(name) && exists|i: int|
            0 <= i < v.len() && (#[trigger] v[i]).name == name && v[i].service == service,
{
    lemma_published(v, service, live, name, v.len() as int);
}

proof fn lemma_published(v: Seq<EndpointView>, service: Option<Seq<char>>, live: Seq<Seq<char>>, name: Seq<char>, n: int)
    requires
        0 <= n <= v.len(),
    ensures
        published_upto(v, service, live, n).contains(name) <==> live.contains(name) && exists|i: int|
            0 <= i < n && (#[trigger] v[i]).name == name && v[i].service == service,
    decreases n,
{
    if n > 0 {
        lemma_published(v, service, live, name, n - 1);
        let had = published_upto(v, service, live, n - 1);
        let now = published_upto(v, service, live, n);
        if now.contains(name) {
            let j = choose|j: int| 0 <= j < now.len() && now[j] == name;
            if j < had.len() {
                assert(had[j] == name);
            } else {
                assert(v[n - 1].name == name);
            }
        }
        if had.contains(name) {
            let j = choose|j: int| 0 <= j < had.len() && had[j] == name;
            assert(now[j] == name);
        }
        if v[n - 1].name == name && v[n - 1].service == service && live.contains(name) {
            assert(now[had.len() as int] == name);
        }
    }
}

/// A port is tried for a service exactly where one of its endpoints without a fixed address wants
/// it and has no publisher of its own yet.
pub proof fn law_ports_tried(
    v: Seq<EndpointView>,
    service: Option<Seq<char>>,
    up: Seq<Seq<char>>,
    n: int,
    port: u16,
)
    requires
        0 <= n <= v.len(),
    ensures
        ports_upto(v, service, up, n).contains(port) <==> exists|i: int|
            0 <= i < n && (#[trigger] v[i]).host_port == port && v[i].address == "auto"@ && v[i].service == service
                && !up.contains(v[i].name),
    decreases n,
{
    if n > 0 {
        law_ports_tried(v, service, up, n - 1, port);
        let had = ports_upto(v, service, up, n - 1);
        let now = ports_upto(v, service, up, n);
        if now.contains(port) {
            let j = choose|j: int| 0 <= j < now.len() && now[j] == port;
            if j < had.len() {
                assert(had[j] == port);
            } else {
                assert(v[n - 1].host_port == port);
            }
        }
        if had.contains(port) {
            let j = choose|j: int| 0 <= j < had.len() && had[j] == port;
            assert(now[j] == port);
        }
        let e = v[n - 1];
        if e.host_port == port && e.address == "auto"@ && e.service == service && !up.contains(e.name) {
            assert(now[had.len() as int] == port);
        }
    }
}

/// An address is given up only where nothing of the service is published, and then it is gone.
pub proof fn law_given_up(alloc: Option<AllocationView>, service: Option<Seq<char>>, still_up: Seq<Seq<char>>)
    requires
        alloc matches Some(a) ==> crate::entries::sorted(a.octets),
    ensures
        forgotten(alloc, service, still_up).save matches Some(b) ==> {
            &&& still_up.len() == 0
            &&& b.address_of(service) is None
            &&& alloc matches Some(a) && a.address_of(service) is Some && b.block == a.block
        },
        still_up.len() > 0 ==> forgotten(alloc, service, still_up).note is Some,
        still_up.len() == 0 && alloc is Some && alloc->0.address_of(service) is Some ==> forgotten(
            alloc,
            service,
            still_up,
        ).save is Some,
{
    if let Some(a) = alloc {
        crate::entries::lemma_without(a.octets, crate::endpoints::octet_key(service));
    }
}

} // verus!
