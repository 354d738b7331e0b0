//! Stable host addresses for a dev environment's endpoints.
//!
//! An endpoint whose address is `auto` is published on a loopback address that is the
//! environment's own: `127.0.<block>.<octet>`, one block per environment and one octet per
//! service in it (the primary counts as one), so the URL a runner announces stays the same
//! across restarts and never collides with another worktree's.
//!
//! Choosing a block starts at one derived from the state directory, so worktrees usually miss
//! each other without coordination, and confirms a candidate two ways: no other environment has
//! written that block down, and every auto endpoint of the service binds on it. A remembered
//! block is kept while anything is published from the environment, and moved only when it is
//! taken by something else and nothing of ours is live: an address never moves under a running
//! relay. Binding is the caller's: [`allocate`] says which address to try next, given what the
//! tries so far came to.

use crate::digest::{sha256, sha256_of};
use crate::entries::{entry, get, lemma_entry_at, lemma_with_entry, lemma_without, put_entry, sorted, take_out, with_entry, without};
use crate::list::{table, table_shown};
use crate::path::{parent_of, same_path, HostPath};
use crate::plan::{EndpointPlan, EndpointView};
use crate::text::{
    cat2, cat3, cat4, cat5, copy_opt, decimal, error, is_one_of, join, joined, outcome, put, same, to_decimal, Error,
};
use vstd::prelude::*;

verus! {

/// The allocation band, above the low blocks that local configuration commonly uses.
pub const BLOCK_FIRST: u8 = 20;

pub const BLOCK_LAST: u8 = 250;

/// How many blocks the band holds.
pub const SPAN: u64 = 231;

/// Where an environment's allocation is kept, in its state directory.
pub const FILE: &'static str = "endpoints.json";

/// A loopback address: `127.0.<block>.<octet>`.
#[derive(Debug, Clone, Copy, PartialEq, Eq, Structural)]
pub struct Loopback {
    pub block: u8,
    pub octet: u8,
}

impl Loopback {
    pub open spec fn spelling(self) -> Seq<char> {
        "127.0."@ + decimal(self.block as nat) + "."@ + decimal(self.octet as nat)
    }

    pub fn to_text(self) -> (r: String)
        ensures
            r@ == self.spelling(),
    {
        let b = to_decimal(self.block as u64);
        let o = to_decimal(self.octet as u64);
        cat4("127.0.", b.as_str(), ".", o.as_str())
    }
}

/// What an environment remembers: its block, and the octet each service got.
#[derive(Debug)]
pub struct Allocation {
    pub block: u8,
    /// service name to last octet, in name order; the primary is the empty name
    pub octets: Vec<(String, u8)>,
}

pub struct AllocationView {
    pub block: u8,
    pub octets: Seq<(Seq<char>, u8)>,
}

impl DeepView for Allocation {
    type V = AllocationView;

    open spec fn deep_view(&self) -> AllocationView {
        AllocationView { block: self.block, octets: self.octets.deep_view() }
    }
}

/// The name a service's octet stands under.
pub open spec fn octet_key(service: Option<Seq<char>>) -> Seq<char> {
    match service {
        Some(s) => s,
        None => ""@,
    }
}

fn key_of<'a>(service: &'a Option<String>) -> (r: &'a str)
    ensures
        r@ == octet_key(service.deep_view()),
{
    match service {
        Some(s) => s.as_str(),
        None => "",
    }
}

/// One of the octets is `o`.
pub open spec fn octet_taken(octets: Seq<(Seq<char>, u8)>, o: int) -> bool {
    exists|i: int| 0 <= i < octets.len() && (#[trigger] octets[i]).1 == o
}

/// The first octet from `from` on that no service has, if there is one below 255.
pub open spec fn free_octet(octets: Seq<(Seq<char>, u8)>, from: int) -> Option<u8>
    decreases 255 - from,
{
    if from < 1 || from > 254 {
        None
    } else if !octet_taken(octets, from) {
        Some(from as u8)
    } else {
        free_octet(octets, from + 1)
    }
}

impl AllocationView {
    /// The names stand in order, and no two services share an octet.
    pub open spec fn wf(self) -> bool {
        &&& sorted(self.octets)
        &&& forall|i: int, j: int|
            0 <= i < j < self.octets.len() ==> (#[trigger] self.octets[i]).1 != (#[trigger] self.octets[j]).1
    }

    /// The address a service was given.
    pub open spec fn address_of(self, service: Option<Seq<char>>) -> Option<Loopback> {
        match entry(self.octets, octet_key(service)) {
            Some(octet) => Some(Loopback { block: self.block, octet }),
            None => None,
        }
    }

    /// The allocation with this octet for the service.
    pub open spec fn with_octet(self, service: Option<Seq<char>>, octet: u8) -> AllocationView {
        AllocationView { octets: with_entry(self.octets, octet_key(service), octet), ..self }
    }

    /// The allocation without the service's octet.
    pub open spec fn forgetting(self, service: Option<Seq<char>>) -> AllocationView {
        AllocationView { octets: without(self.octets, octet_key(service)), ..self }
    }
}

/// What is said where a block is full.
pub open spec fn full_block() -> Seq<char> {
    "no loopback octet left in this environment's block"@
}

impl Allocation {
    /// The address a service (the primary for none) was given, if it has one.
    pub fn address(&self, service: &Option<String>) -> (r: Option<Loopback>)
        ensures
            r == self.deep_view().address_of(service.deep_view()),
    {
        match get(&self.octets, key_of(service)) {
            Some(octet) => Some(Loopback { block: self.block, octet: *octet }),
            None => None,
        }
    }

    /// The next free octet, 1 upwards.
    pub fn next_octet(&self) -> (r: Result<u8, Error>)
        ensures
            match free_octet(self.deep_view().octets, 1) {
                Some(o) => r matches Ok(x) && x == o,
                None => r matches Err(e) && e.deep_view() == full_block(),
            },
    {
        let ghost s = self.octets.deep_view();
        let mut o: u8 = 1;
        while o < 255
            invariant
                1 <= o <= 255,
                s == self.octets.deep_view(),
                free_octet(s, o as int) == free_octet(s, 1),
            decreases 255 - o,
        {
            let mut taken = false;
            let mut i: usize = 0;
            while i < self.octets.len()
                invariant
                    i <= self.octets@.len(),
                    s == self.octets.deep_view(),
                    taken == exists|j: int| 0 <= j < i && (#[trigger] s[j]).1 == o,
                decreases self.octets@.len() - i,
            {
                assert(s[i as int].1 == self.octets@[i as int].1);
                if self.octets[i].1 == o {
                    taken = true;
                }
                i = i + 1;
            }
            if !taken {
                return Ok(o);
            }
            o = o + 1;
        }
        Err(error("no loopback octet left in this environment's block".to_owned()))
    }

    pub fn copy(&self) -> (r: Allocation)
        ensures
            r.deep_view() == self.deep_view(),
    {
        let mut octets: Vec<(String, u8)> = Vec::new();
        let mut i: usize = 0;
        while i < self.octets.len()
            invariant
                i <= self.octets@.len(),
                octets.deep_view() == self.octets.deep_view().take(i as int),
            decreases self.octets@.len() - i,
        {
            put(&mut octets, (self.octets[i].0.clone(), self.octets[i].1));
            assert(octets.deep_view() =~= self.octets.deep_view().take(i + 1));
            i = i + 1;
        }
        assert(octets.deep_view() =~= self.octets.deep_view());
        Allocation { block: self.block, octets }
    }
}

/// Where every environment's state directory lives: what holds this one.
pub fn shared_base(state_dir: &HostPath) -> (r: Result<HostPath, Error>)
    ensures
        outcome(r) == match parent_of(state_dir.deep_view()) {
            Some(p) => Ok::<Seq<u8>, Seq<char>>(p),
            None => Err(crate::path::lossy_text(state_dir.deep_view()) + " has no parent directory"@),
        },
{
    match state_dir.parent() {
        Some(p) => Ok(p),
        None => Err(error(cat2(state_dir.display().as_str(), " has no parent directory"))),
    }
}

/// How a service is named in a message.
pub open spec fn service_said(service: Option<Seq<char>>) -> Seq<char> {
    match service {
        Some(s) => "service "@ + s,
        None => "the environment's own endpoints"@,
    }
}

pub fn named(service: &Option<String>) -> (r: String)
    ensures
        r@ == service_said(service.deep_view()),
{
    match service {
        Some(s) => cat2("service ", s.as_str()),
        None => "the environment's own endpoints".to_owned(),
    }
}

fn same_service(a: &Option<String>, b: &Option<String>) -> (r: bool)
    ensures
        r == (a.deep_view() == b.deep_view()),
{
    match (a, b) {
        (Some(x), Some(y)) => same(x.as_str(), y.as_str()),
        (None, None) => true,
        _ => false,
    }
}

/// The names of the first `n` endpoints that are the service's and have a publisher up.
pub open spec fn published_upto(
    endpoints: Seq<EndpointView>,
    service: Option<Seq<char>>,
    live: Seq<Seq<char>>,
    n: int,
) -> Seq<Seq<char>>
    decreases n,
{
    if n <= 0 {
        Seq::empty()
    } else {
        let had = published_upto(endpoints, service, live, n - 1);
        let e = endpoints[n - 1];
        if e.service == service && live.contains(e.name) {
            had.push(e.name)
        } else {
            had
        }
    }
}

pub open spec fn published(
    endpoints: Seq<EndpointView>,
    service: Option<Seq<char>>,
    live: Seq<Seq<char>>,
) -> Seq<Seq<char>> {
    published_upto(endpoints, service, live, endpoints.len() as int)
}

/// The endpoints of a service (the primary's for none) that have a publisher up.
pub fn published_names(endpoints: &Vec<EndpointPlan>, service: &Option<String>, live: &Vec<String>) -> (r: Vec<
    String,
>)
    ensures
        r.deep_view() == published(endpoints.deep_view(), service.deep_view(), live.deep_view()),
{
    let mut out: Vec<String> = Vec::new();
    let mut i: usize = 0;
    assert(out.deep_view() =~= Seq::empty());
    while i < endpoints.len()
        invariant
            i <= endpoints@.len(),
            out.deep_view() == published_upto(
                endpoints.deep_view(),
                service.deep_view(),
                live.deep_view(),
                i as int,
            ),
        decreases endpoints@.len() - i,
    {
        assert(endpoints.deep_view()[i as int] == endpoints@[i as int].deep_view());
        if same_service(&endpoints[i].service, service) && is_one_of(endpoints[i].name.as_str(), live) {
            put(&mut out, endpoints[i].name.clone());
        }
        i = i + 1;
    }
    out
}

/// The ports of the first `n` endpoints that are the service's, are `auto`, and no relay of
/// ours holds yet.
pub open spec fn ports_upto(
    endpoints: Seq<EndpointView>,
    service: Option<Seq<char>>,
    published: Seq<Seq<char>>,
    n: int,
) -> Seq<u16>
    decreases n,
{
    if n <= 0 {
        Seq::empty()
    } else {
        let had = ports_upto(endpoints, service, published, n - 1);
        let e = endpoints[n - 1];
        if e.address == "auto"@ && e.service == service && !published.contains(e.name) {
            had.push(e.host_port)
        } else {
            had
        }
    }
}

/// The ports to try: those of the service's auto endpoints that no relay of ours holds yet. Our
/// own publisher answering on a port is what a bind cannot tell apart from a stranger holding
/// it.
pub fn auto_ports(endpoints: &Vec<EndpointPlan>, service: &Option<String>, live: &Vec<String>) -> (r: Vec<u16>)
    ensures
        r@ == ports_upto(
            endpoints.deep_view(),
            service.deep_view(),
            published(endpoints.deep_view(), service.deep_view(), live.deep_view()),
            endpoints@.len() as int,
        ),
{
    let up = published_names(endpoints, service, live);
    let mut out: Vec<u16> = Vec::new();
    let mut i: usize = 0;
    while i < endpoints.len()
        invariant
            i <= endpoints@.len(),
            out@ == ports_upto(endpoints.deep_view(), service.deep_view(), up.deep_view(), i as int),
        decreases endpoints@.len() - i,
    {
        assert(endpoints.deep_view()[i as int] == endpoints@[i as int].deep_view());
        if endpoints[i].auto() && same_service(&endpoints[i].service, service) && !is_one_of(
            endpoints[i].name.as_str(),
            &up,
        ) {
            out.push(endpoints[i].host_port);
        }
        i = i + 1;
    }
    out
}

/// What forgetting a service's octet comes to: what is said, and what is written.
#[derive(Debug)]
pub struct Forgotten {
    pub note: Option<String>,
    pub save: Option<Allocation>,
}

pub struct ForgottenView {
    pub note: Option<Seq<char>>,
    pub save: Option<AllocationView>,
}

impl DeepView for Forgotten {
    type V = ForgottenView;

    open spec fn deep_view(&self) -> ForgottenView {
        ForgottenView { note: self.note.deep_view(), save: self.save.deep_view() }
    }
}

/// Forgetting the octet of a service with these publishers up.
pub open spec fn forgotten(
    alloc: Option<AllocationView>,
    service: Option<Seq<char>>,
    still_up: Seq<Seq<char>>,
) -> ForgottenView {
    if still_up.len() > 0 {
        ForgottenView {
            note: Some(
                "virtkit: "@ + service_said(service) + " keeps its address: "@ + joined(still_up, ", "@) + " still published"@,
            ),
            save: None,
        }
    } else if alloc is Some && alloc->0.address_of(service) is Some {
        ForgottenView { note: None, save: Some(alloc->0.forgetting(service)) }
    } else {
        ForgottenView { note: None, save: None }
    }
}

/// Drop a service's octet, so its next publish picks another: for when a publish finds its
/// address taken after all. The block and every other service's octet stay, and nothing changes
/// while the service itself still has a publisher up.
pub fn forget(alloc: Option<Allocation>, service: &Option<String>, still_up: &Vec<String>) -> (r: Forgotten)
    ensures
        r.deep_view() == forgotten(alloc.deep_view(), service.deep_view(), still_up.deep_view()),
{
    assert(still_up.deep_view().len() == still_up@.len());
    if !still_up.is_empty() {
        let who = named(service);
        let names = join(still_up, ", ");
        return Forgotten {
            note: Some(
                cat5("virtkit: ", who.as_str(), " keeps its address: ", names.as_str(), " still published"),
            ),
            save: None,
        };
    }
    match alloc {
        Some(a) => {
            let mut a = a;
            match take_out(&mut a.octets, key_of(service)) {
                Some(_) => Forgotten { note: None, save: Some(a) },
                None => Forgotten { note: None, save: None },
            }
        },
        None => Forgotten { note: None, save: None },
    }
}

/// What another environment wrote down.
#[derive(Debug)]
pub struct Elsewhere {
    /// its state directory's canonical path
    pub dir: HostPath,
    pub block: u8,
}

pub struct ElsewhereView {
    pub dir: Seq<u8>,
    pub block: u8,
}

impl DeepView for Elsewhere {
    type V = ElsewhereView;

    open spec fn deep_view(&self) -> ElsewhereView {
        ElsewhereView { dir: self.dir.deep_view(), block: self.block }
    }
}

/// The block is one that another environment than ours wrote down.
pub open spec fn block_elsewhere(found: Seq<ElsewhereView>, ours: Seq<u8>, block: u8) -> bool {
    exists|i: int| 0 <= i < found.len() && !same_path((#[trigger] found[i]).dir, ours) && found[i].block == block
}

/// The blocks the other environments on this host have written down. `ours` is the canonical
/// path of this environment's state directory.
pub fn blocks_taken_elsewhere(found: &Vec<Elsewhere>, ours: &HostPath) -> (r: Vec<u8>)
    ensures
        forall|b: u8| r@.contains(b) <==> #[trigger] block_elsewhere(found.deep_view(), ours.deep_view(), b),
{
    let ghost f = found.deep_view();
    let mut out: Vec<u8> = Vec::new();
    let mut i: usize = 0;
    while i < found.len()
        invariant
            i <= found@.len(),
            f == found.deep_view(),
            forall|b: u8|
                #[trigger] out@.contains(b) <==> exists|j: int|
                    0 <= j < i && !same_path((#[trigger] f[j]).dir, ours.deep_view()) && f[j].block == b,
        decreases found@.len() - i,
    {
        assert(f[i as int] == found@[i as int].deep_view());
        let ghost had = out@;
        if !found[i].dir.is_same(ours) {
            out.push(found[i].block);
            assert(out@[had.len() as int] == f[i as int].block);
            assert forall|b: u8| #[trigger] out@.contains(b) <==> had.contains(b) || b == f[i as int].block by {
                if had.contains(b) {
                    let p = choose|p: int| 0 <= p < had.len() && had[p] == b;
                    assert(out@[p] == b);
                }
            }
        }
        i = i + 1;
        assert forall|b: u8|
            #[trigger] out@.contains(b) <==> exists|j: int|
                0 <= j < i && !same_path((#[trigger] f[j]).dir, ours.deep_view()) && f[j].block == b by {
            if had.contains(b) {
                let j = choose|j: int|
                    0 <= j < i - 1 && !same_path((#[trigger] f[j]).dir, ours.deep_view()) && f[j].block == b;
                assert(0 <= j < i && !same_path(f[j].dir, ours.deep_view()) && f[j].block == b);
            }
        }
    }
    assert forall|b: u8| out@.contains(b) <==> #[trigger] block_elsewhere(f, ours.deep_view(), b) by {}
    out
}

/// The number four bytes spell, the first the most significant.
pub open spec fn big_endian(d: Seq<u8>) -> int {
    ((d[0] * 256 + d[1]) * 256 + d[2]) * 256 + d[3]
}

/// The block the scan starts at.
pub open spec fn first_block(state_dir: Seq<u8>) -> u8 {
    (BLOCK_FIRST + big_endian(sha256_of(state_dir)) % (SPAN as int)) as u8
}

/// The block the scan starts at, derived from the state directory.
pub fn preferred_block(state_dir: &HostPath) -> (r: u8)
    ensures
        r == first_block(state_dir.deep_view()),
        BLOCK_FIRST <= r <= BLOCK_LAST,
{
    let d = sha256(state_dir.bytes.as_slice());
    let n: u64 = ((d[0] as u64 * 256 + d[1] as u64) * 256 + d[2] as u64) * 256 + d[3] as u64;
    assert(n == big_endian(d@));
    let offset: u64 = n % SPAN;
    assert(offset < 231);
    BLOCK_FIRST + offset as u8
}

/// What a try to bind an address came to.
#[derive(Debug, Clone, Copy)]
pub struct Tried {
    pub addr: Loopback,
    /// every port bound
    pub bound: bool,
}

impl DeepView for Tried {
    type V = Tried;

    open spec fn deep_view(&self) -> Tried {
        *self
    }
}

/// What the tries say of an address, from the `from`th on.
pub open spec fn answer_from(tries: Seq<Tried>, addr: Loopback, from: int) -> Option<bool>
    decreases tries.len() - from,
{
    if from < 0 || from >= tries.len() {
        None
    } else if tries[from].addr == addr {
        Some(tries[from].bound)
    } else {
        answer_from(tries, addr, from + 1)
    }
}

/// What the tries say of an address.
pub open spec fn answer(tries: Seq<Tried>, addr: Loopback) -> Option<bool> {
    answer_from(tries, addr, 0)
}

fn answer_of(tries: &Vec<Tried>, addr: Loopback) -> (r: Option<bool>)
    ensures
        r == answer(tries@, addr),
{
    let mut i: usize = 0;
    while i < tries.len()
        invariant
            i <= tries@.len(),
            answer_from(tries@, addr, i as int) == answer(tries@, addr),
        decreases tries@.len() - i,
    {
        if tries[i].addr == addr {
            return Some(tries[i].bound);
        }
        i = i + 1;
    }
    None
}

/// What an allocation needs next, or came to.
#[derive(Debug)]
pub enum Step {
    /// try to bind every port on the address
    Try(Loopback),
    /// try it once more, now that it has been chosen
    Confirm(Loopback),
    /// the address the service has already
    Keep(Loopback),
    /// write the allocation down, and publish on the address
    Save(Allocation, Loopback),
    Refuse(Error),
}

pub enum StepView {
    Try(Loopback),
    Confirm(Loopback),
    Keep(Loopback),
    Save(AllocationView, Loopback),
    Refuse(Seq<char>),
}

impl DeepView for Step {
    type V = StepView;

    open spec fn deep_view(&self) -> StepView {
        match *self {
            Step::Try(a) => StepView::Try(a),
            Step::Confirm(a) => StepView::Confirm(a),
            Step::Keep(a) => StepView::Keep(a),
            Step::Save(x, a) => StepView::Save(x.deep_view(), a),
            Step::Refuse(e) => StepView::Refuse(e.deep_view()),
        }
    }
}

/// Numbers as a list is printed.
pub open spec fn ports_shown(ports: Seq<u16>) -> Seq<char> {
    "["@ + joined(Seq::new(ports.len(), |i: int| decimal(ports[i] as nat)), ", "@) + "]"@
}

fn show_ports(ports: &Vec<u16>) -> (r: String)
    ensures
        r@ == ports_shown(ports@),
{
    let ghost all = Seq::new(ports@.len(), |i: int| decimal(ports@[i] as nat));
    let mut v: Vec<String> = Vec::new();
    let mut i: usize = 0;
    assert(v.deep_view() =~= all.take(0));
    while i < ports.len()
        invariant
            i <= ports@.len(),
            all == Seq::new(ports@.len(), |i: int| decimal(ports@[i] as nat)),
            v.deep_view() == all.take(i as int),
        decreases ports@.len() - i,
    {
        put(&mut v, to_decimal(ports[i] as u64));
        assert(v.deep_view() =~= all.take(i + 1));
        i = i + 1;
    }
    assert(v.deep_view() =~= all);
    cat3("[", join(&v, ", ").as_str(), "]")
}

/// The `i`th block of a scan that starts at `first`.
pub open spec fn scan_block(first: u8, i: int) -> u8 {
    (BLOCK_FIRST + (first - BLOCK_FIRST + i) % (SPAN as int)) as u8
}

/// A block found free, one that has to be tried first, or none.
pub enum Search {
    Free(u8),
    Untried(u8),
    Exhausted,
}

/// The first block from the `i`th of the scan on that no other environment has and that binds,
/// unless one before it has not been tried.
pub open spec fn find_block(first: u8, elsewhere: Seq<u8>, tries: Seq<Tried>, i: int) -> Search
    decreases SPAN - i,
{
    if i < 0 || i >= SPAN {
        Search::Exhausted
    } else {
        let b = scan_block(first, i);
        if elsewhere.contains(b) {
            find_block(first, elsewhere, tries, i + 1)
        } else {
            match answer(tries, Loopback { block: b, octet: 1 }) {
                None => Search::Untried(b),
                Some(true) => Search::Free(b),
                Some(false) => find_block(first, elsewhere, tries, i + 1),
            }
        }
    }
}

/// Giving the service the next free octet of an allocation, once its address is confirmed.
pub open spec fn octet_step(
    a: AllocationView,
    service: Option<Seq<char>>,
    ports: Seq<u16>,
    confirmed: Option<bool>,
) -> StepView {
    match free_octet(a.octets, 1) {
        None => StepView::Refuse(full_block()),
        Some(octet) => {
            let addr = Loopback { block: a.block, octet };
            match confirmed {
                None => StepView::Confirm(addr),
                Some(true) => StepView::Save(a.with_octet(service, octet), addr),
                Some(false) => StepView::Refuse(
                    addr.spelling() + " cannot bind "@ + ports_shown(ports)
                        + ", though the block was free a moment ago — retry, or look for a listener that came up on it"@,
                ),
            }
        },
    }
}

/// Giving the service an address in a block of the environment's own choosing.
pub open spec fn block_step(
    first: u8,
    service: Option<Seq<char>>,
    ports: Seq<u16>,
    elsewhere: Seq<u8>,
    tries: Seq<Tried>,
    confirmed: Option<bool>,
) -> StepView {
    match find_block(first, elsewhere, tries, 0) {
        Search::Untried(b) => StepView::Try(Loopback { block: b, octet: 1 }),
        Search::Free(b) => octet_step(AllocationView { block: b, octets: Seq::empty() }, service, ports, confirmed),
        Search::Exhausted => StepView::Refuse(
            "every 127.0.<20-250>.x block is another environment's or already has a listener on one of the ports "@
                + ports_shown(ports)
                + "; a wildcard listener (0.0.0.0:<port>, or [::]:<port> with IPV6_V6ONLY=0) takes every block at once, so look for one of those first — and `vk dev list` names the environments"@,
        ),
    }
}

/// What is said where something else took a port on an address that cannot move.
pub open spec fn pinned_error(addr: Loopback, ports: Seq<u16>) -> Seq<char> {
    addr.spelling() + " cannot bind "@ + ports_shown(ports)
        + ", and the environment's block is pinned while its relays are up — free the port, or stop the environment so its endpoints can move to another block"@
}

/// What an allocation needs next, or comes to.
pub open spec fn next_step(
    alloc: Option<AllocationView>,
    service: Option<Seq<char>>,
    live: bool,
    ports: Seq<u16>,
    first: u8,
    elsewhere: Seq<u8>,
    tries: Seq<Tried>,
    confirmed: Option<bool>,
) -> StepView {
    match alloc {
        None => block_step(first, service, ports, elsewhere, tries, confirmed),
        Some(a) => match a.address_of(service) {
            None => octet_step(a, service, ports, confirmed),
            Some(addr) => match answer(tries, addr) {
                None => StepView::Try(addr),
                Some(true) => StepView::Keep(addr),
                Some(false) => if live {
                    StepView::Refuse(pinned_error(addr, ports))
                } else {
                    block_step(first, service, ports, elsewhere, tries, confirmed)
                },
            },
        },
    }
}

/// The environment has to give its block up.
pub open spec fn moves(
    alloc: Option<AllocationView>,
    service: Option<Seq<char>>,
    live: bool,
    tries: Seq<Tried>,
) -> bool {
    &&& !live
    &&& alloc is Some
    &&& alloc->0.address_of(service) is Some
    &&& answer(tries, alloc->0.address_of(service)->0) == Some(false)
}

fn octet_next(a: Allocation, service: &Option<String>, ports: &Vec<u16>, confirmed: Option<bool>) -> (r: Step)
    ensures
        r.deep_view() == octet_step(a.deep_view(), service.deep_view(), ports@, confirmed),
{
    match a.next_octet() {
        Err(e) => Step::Refuse(e),
        Ok(octet) => {
            let addr = Loopback { block: a.block, octet };
            match confirmed {
                None => Step::Confirm(addr),
                Some(true) => {
                    let mut a = a;
                    put_entry(&mut a.octets, key_of(service).to_owned(), octet);
                    Step::Save(a, addr)
                },
                Some(false) => {
                    let at = addr.to_text();
                    let list = show_ports(ports);
                    Step::Refuse(
                        error(
                            cat4(
                                at.as_str(),
                                " cannot bind ",
                                list.as_str(),
                                ", though the block was free a moment ago — retry, or look for a listener that came up on it",
                            ),
                        ),
                    )
                },
            }
        },
    }
}

fn block_next(
    first: u8,
    service: &Option<String>,
    ports: &Vec<u16>,
    elsewhere: &Vec<u8>,
    tries: &Vec<Tried>,
    confirmed: Option<bool>,
) -> (r: Step)
    requires
        BLOCK_FIRST <= first <= BLOCK_LAST,
    ensures
        r.deep_view() == block_step(first, service.deep_view(), ports@, elsewhere@, tries@, confirmed),
{
    let mut i: u64 = 0;
    while i < SPAN
        invariant
            i <= SPAN,
            BLOCK_FIRST <= first <= BLOCK_LAST,
            find_block(first, elsewhere@, tries@, i as int) == find_block(first, elsewhere@, tries@, 0),
        decreases SPAN - i,
    {
        let at: u64 = ((first - BLOCK_FIRST) as u64 + i) % SPAN;
        assert(at < 231);
        let b: u8 = BLOCK_FIRST + at as u8;
        assert(b == scan_block(first, i as int));
        if !has_block(elsewhere, b) {
            match answer_of(tries, Loopback { block: b, octet: 1 }) {
                None => {
                    return Step::Try(Loopback { block: b, octet: 1 });
                },
                Some(true) => {
                    let a = Allocation { block: b, octets: Vec::new() };
                    assert(a.octets.deep_view() =~= Seq::empty());
                    return octet_next(a, service, ports, confirmed);
                },
                Some(false) => {},
            }
        }
        i = i + 1;
    }
    let list = show_ports(ports);
    Step::Refuse(
        error(
            cat3(
                "every 127.0.<20-250>.x block is another environment's or already has a listener on one of the ports ",
                list.as_str(),
                "; a wildcard listener (0.0.0.0:<port>, or [::]:<port> with IPV6_V6ONLY=0) takes every block at once, so look for one of those first — and `vk dev list` names the environments",
            ),
        ),
    )
}

fn has_block(v: &Vec<u8>, b: u8) -> (r: bool)
    ensures
        r == v@.contains(b),
{
    let mut i: usize = 0;
    while i < v.len()
        invariant
            i <= v@.len(),
            forall|j: int| 0 <= j < i ==> v@[j] != b,
        decreases v@.len() - i,
    {
        if v[i] == b {
            return true;
        }
        i = i + 1;
    }
    false
}

/// The address a service's auto endpoints publish on, allocating it if need be: what to do next,
/// given what the tries so far came to. `live` says whether anything is published from this
/// environment right now, which pins the block; `first` is the block the scan starts at, and
/// `elsewhere` are the blocks other environments wrote down. An address that was chosen is
/// tried once more before it is written down: `confirmed` says what that came to.
pub fn allocate(
    alloc: &Option<Allocation>,
    service: &Option<String>,
    live: bool,
    ports: &Vec<u16>,
    first: u8,
    elsewhere: &Vec<u8>,
    tries: &Vec<Tried>,
    confirmed: Option<bool>,
) -> (r: Step)
    requires
        BLOCK_FIRST <= first <= BLOCK_LAST,
    ensures
        r.deep_view() == next_step(
            alloc.deep_view(),
            service.deep_view(),
            live,
            ports@,
            first,
            elsewhere@,
            tries@,
            confirmed,
        ),
{
    match alloc {
        None => block_next(first, service, ports, elsewhere, tries, confirmed),
        Some(a) => match a.address(service) {
            None => octet_next(a.copy(), service, ports, confirmed),
            Some(addr) => match answer_of(tries, addr) {
                None => Step::Try(addr),
                Some(true) => Step::Keep(addr),
                Some(false) => if live {
                    let at = addr.to_text();
                    let list = show_ports(ports);
                    Step::Refuse(
                        error(
                            cat4(
                                at.as_str(),
                                " cannot bind ",
                                list.as_str(),
                                ", and the environment's block is pinned while its relays are up — free the port, or stop the environment so its endpoints can move to another block",
                            ),
                        ),
                    )
                } else {
                    block_next(first, service, ports, elsewhere, tries, confirmed)
                },
            },
        },
    }
}

/// What is said as the environment gives its block up.
pub fn moved_note(
    alloc: &Option<Allocation>,
    service: &Option<String>,
    live: bool,
    tries: &Vec<Tried>,
) -> (r: Option<String>)
    ensures
        r.deep_view() == if moves(alloc.deep_view(), service.deep_view(), live, tries@) {
            Some(
                "virtkit: 127.0."@ + decimal(alloc.deep_view()->0.block as nat)
                    + ".0/24 is taken by something else now — moving the environment's endpoints to a free block"@,
            )
        } else {
            None
        },
{
    match alloc {
        None => None,
        Some(a) => match a.address(service) {
            None => None,
            Some(addr) => match answer_of(tries, addr) {
                Some(false) => if live {
                    None
                } else {
                    let b = to_decimal(a.block as u64);
                    Some(
                        cat3(
                            "virtkit: 127.0.",
                            b.as_str(),
                            ".0/24 is taken by something else now — moving the environment's endpoints to a free block",
                        ),
                    )
                },
                _ => None,
            },
        },
    }
}

/// One endpoint as it stands on this host.
#[derive(Debug)]
pub struct EndpointState {
    pub name: String,
    pub service: Option<String>,
    /// `tcp://<address>:<port>`, or none for an auto address not allocated yet
    pub listen: Option<String>,
    pub to: String,
    /// when the endpoint names a scheme and has an address
    pub url: Option<String>,
    pub required: bool,
    pub published: bool,
}

pub struct EndpointStateView {
    pub name: Seq<char>,
    pub service: Option<Seq<char>>,
    pub listen: Option<Seq<char>>,
    pub to: Seq<char>,
    pub url: Option<Seq<char>>,
    pub required: bool,
    pub published: bool,
}

impl DeepView for EndpointState {
    type V = EndpointStateView;

    open spec fn deep_view(&self) -> EndpointStateView {
        EndpointStateView {
            name: self.name@,
            service: self.service.deep_view(),
            listen: self.listen.deep_view(),
            to: self.to@,
            url: self.url.deep_view(),
            required: self.required,
            published: self.published,
        }
    }
}

/// The host address of an endpoint as configured or remembered.
pub open spec fn address_at(alloc: Option<AllocationView>, e: EndpointView) -> Option<Seq<char>> {
    if e.address == "auto"@ {
        match alloc {
            Some(a) => match a.address_of(e.service) {
                Some(addr) => Some(addr.spelling()),
                None => None,
            },
            None => None,
        }
    } else {
        Some(e.address)
    }
}

/// The host address of an endpoint as configured or remembered, never allocating.
pub fn address_of(alloc: &Option<Allocation>, ep: &EndpointPlan) -> (r: Option<String>)
    ensures
        r.deep_view() == address_at(alloc.deep_view(), ep.deep_view()),
{
    if ep.auto() {
        match alloc {
            Some(a) => match a.address(&ep.service) {
                Some(addr) => Some(addr.to_text()),
                None => None,
            },
            None => None,
        }
    } else {
        Some(ep.address.clone())
    }
}

pub open spec fn listen_at(e: EndpointView, address: Seq<char>) -> Seq<char> {
    "tcp://"@ + address + ":"@ + decimal(e.host_port as nat)
}

/// Where an endpoint listens on an address.
pub fn listen_on(ep: &EndpointPlan, address: &str) -> (r: String)
    ensures
        r@ == listen_at(ep.deep_view(), address@),
{
    let port = to_decimal(ep.host_port as u64);
    cat4("tcp://", address, ":", port.as_str())
}

pub open spec fn url_at(e: EndpointView, address: Seq<char>) -> Option<Seq<char>> {
    match e.scheme {
        Some(scheme) => Some(
            scheme + "://"@ + address + ":"@ + decimal(e.host_port as nat) + match e.path {
                Some(p) => p,
                None => ""@,
            },
        ),
        None => None,
    }
}

/// The URL an endpoint is reached at on an address, if it names a scheme.
pub fn url_on(ep: &EndpointPlan, address: &str) -> (r: Option<String>)
    ensures
        r.deep_view() == url_at(ep.deep_view(), address@),
{
    match &ep.scheme {
        Some(scheme) => {
            let port = to_decimal(ep.host_port as u64);
            let path = match &ep.path {
                Some(p) => p.as_str(),
                None => "",
            };
            Some(crate::text::cat6(scheme.as_str(), "://", address, ":", port.as_str(), path))
        },
        None => None,
    }
}

/// Which endpoints a caller is asking about.
#[derive(Debug)]
pub enum Which {
    /// every endpoint the plan declares
    All,
    /// the primary's own: those no compose service claims
    Primary,
    /// one compose service's, whatever it is called
    Service(String),
}

pub enum WhichView {
    All,
    Primary,
    Service(Seq<char>),
}

impl DeepView for Which {
    type V = WhichView;

    open spec fn deep_view(&self) -> WhichView {
        match *self {
            Which::All => WhichView::All,
            Which::Primary => WhichView::Primary,
            Which::Service(s) => WhichView::Service(s@),
        }
    }
}

pub open spec fn selects(which: WhichView, e: EndpointView) -> bool {
    match which {
        WhichView::All => true,
        WhichView::Primary => e.service is None,
        WhichView::Service(name) => e.service == Some(name),
    }
}

fn is_selected(which: &Which, e: &EndpointPlan) -> (r: bool)
    ensures
        r == selects(which.deep_view(), e.deep_view()),
{
    match which {
        Which::All => true,
        Which::Primary => e.service.is_none(),
        Which::Service(name) => match &e.service {
            Some(s) => same(s.as_str(), name.as_str()),
            None => false,
        },
    }
}

/// One endpoint as it stands.
pub open spec fn state_of(e: EndpointView, alloc: Option<AllocationView>, live: Seq<Seq<char>>) -> EndpointStateView {
    let address = address_at(alloc, e);
    EndpointStateView {
        name: e.name,
        service: e.service,
        listen: match address {
            Some(a) => Some(listen_at(e, a)),
            None => None,
        },
        to: e.to,
        url: match address {
            Some(a) => url_at(e, a),
            None => None,
        },
        required: e.required,
        published: live.contains(e.name),
    }
}

/// The selected ones of the first `n` endpoints as they stand.
pub open spec fn states_upto(
    endpoints: Seq<EndpointView>,
    which: WhichView,
    alloc: Option<AllocationView>,
    live: Seq<Seq<char>>,
    n: int,
) -> Seq<EndpointStateView>
    decreases n,
{
    if n <= 0 {
        Seq::empty()
    } else {
        let had = states_upto(endpoints, which, alloc, live, n - 1);
        if selects(which, endpoints[n - 1]) {
            had.push(state_of(endpoints[n - 1], alloc, live))
        } else {
            had
        }
    }
}

/// The selected endpoints, with each one's address and whether a publisher is live for it.
pub fn views(endpoints: &Vec<EndpointPlan>, which: &Which, alloc: &Option<Allocation>, live: &Vec<String>) -> (r: Vec<
    EndpointState,
>)
    ensures
        r.deep_view() == states_upto(
            endpoints.deep_view(),
            which.deep_view(),
            alloc.deep_view(),
            live.deep_view(),
            endpoints@.len() as int,
        ),
{
    let mut out: Vec<EndpointState> = Vec::new();
    let mut i: usize = 0;
    assert(out.deep_view() =~= Seq::empty());
    while i < endpoints.len()
        invariant
            i <= endpoints@.len(),
            out.deep_view() == states_upto(
                endpoints.deep_view(),
                which.deep_view(),
                alloc.deep_view(),
                live.deep_view(),
                i as int,
            ),
        decreases endpoints@.len() - i,
    {
        let e = &endpoints[i];
        assert(endpoints.deep_view()[i as int] == e.deep_view());
        if is_selected(which, e) {
            let (listen, url) = match address_of(alloc, e) {
                Some(a) => (Some(listen_on(e, a.as_str())), url_on(e, a.as_str())),
                None => (None, None),
            };
            put(
                &mut out,
                EndpointState {
                    name: e.name.clone(),
                    service: copy_opt(&e.service),
                    listen,
                    to: e.to.clone(),
                    url,
                    required: e.required,
                    published: is_one_of(e.name.as_str(), live),
                },
            );
        }
        i = i + 1;
    }
    out
}

/// The cells of an endpoint's row.
pub open spec fn state_cells(v: EndpointStateView) -> Seq<Seq<char>> {
    seq![
        v.name,
        match v.service {
            Some(s) => s,
            None => ""@,
        },
        match v.url {
            Some(u) => u,
            None => match v.listen {
                Some(l) => l,
                None => "(address allocated when published)"@,
            },
        },
        v.to,
        if v.published {
            "published"@
        } else {
            "not published"@
        },
    ]
}

pub open spec fn state_headers() -> Seq<Seq<char>> {
    seq!["NAME"@, "SERVICE"@, "ADDRESS"@, "TO"@, "STATE"@]
}

/// `vk dev endpoints` as text.
pub open spec fn states_shown(v: Seq<EndpointStateView>) -> Seq<char> {
    if v.len() == 0 {
        "no endpoints configured\n"@
    } else {
        table_shown(state_headers(), Seq::new(v.len(), |i: int| state_cells(v[i])))
    }
}

/// `vk dev endpoints` as text: one row per endpoint, in the table the other dev listings use.
pub fn render(views: &Vec<EndpointState>) -> (r: String)
    ensures
        r@ == states_shown(views.deep_view()),
{
    if views.is_empty() {
        return "no endpoints configured\n".to_owned();
    }
    let ghost d = views.deep_view();
    let ghost all = Seq::new(d.len(), |i: int| state_cells(d[i]));
    let mut rows: Vec<Vec<String>> = Vec::new();
    let mut i: usize = 0;
    assert(rows.deep_view() =~= all.take(0));
    while i < views.len()
        invariant
            i <= views@.len(),
            d == views.deep_view(),
            all == Seq::new(d.len(), |i: int| state_cells(d[i])),
            rows.deep_view() == all.take(i as int),
        decreases views@.len() - i,
    {
        let v = &views[i];
        assert(d[i as int] == v.deep_view());
        let mut cells: Vec<String> = Vec::new();
        put(&mut cells, v.name.clone());
        put(
            &mut cells,
            match &v.service {
                Some(s) => s.clone(),
                None => "".to_owned(),
            },
        );
        put(
            &mut cells,
            match &v.url {
                Some(u) => u.clone(),
                None => match &v.listen {
                    Some(l) => l.clone(),
                    None => "(address allocated when published)".to_owned(),
                },
            },
        );
        put(&mut cells, v.to.clone());
        put(
            &mut cells,
            if v.published {
                "published".to_owned()
            } else {
                "not published".to_owned()
            },
        );
        assert(cells.deep_view() =~= state_cells(d[i as int]));
        put(&mut rows, cells);
        assert(rows.deep_view() =~= all.take(i + 1));
        i = i + 1;
    }
    assert(rows.deep_view() =~= all);
    let mut h: Vec<String> = Vec::new();
    put(&mut h, "NAME".to_owned());
    put(&mut h, "SERVICE".to_owned());
    put(&mut h, "ADDRESS".to_owned());
    put(&mut h, "TO".to_owned());
    put(&mut h, "STATE".to_owned());
    assert(h.deep_view() =~= state_headers());
    table(h, rows)
}

proof fn lemma_free_octet(octets: Seq<(Seq<char>, u8)>, from: int)
    requires
        1 <= from,
    ensures
        free_octet(octets, from) matches Some(o) ==> {
            &&& from <= o <= 254
            &&& !octet_taken(octets, o as int)
            &&& forall|x: int| from <= x < o ==> octet_taken(octets, x)
        },
        free_octet(octets, from) is None ==> forall|x: int| from <= x <= 254 ==> octet_taken(octets, x),
    decreases 255 - from,
{
    if from <= 254 && octet_taken(octets, from) {
        lemma_free_octet(octets, from + 1);
    }
}

/// The octet given out is the least from 1 on that no service has, and there is none to give
/// only where all are taken.
pub proof fn law_least_free_octet(octets: Seq<(Seq<char>, u8)>)
    ensures
        free_octet(octets, 1) matches Some(o) ==> {
            &&& 1 <= o <= 254
            &&& !octet_taken(octets, o as int)
            &&& forall|x: int| 1 <= x < o ==> octet_taken(octets, x)
        },
        free_octet(octets, 1) is None ==> forall|x: int| 1 <= x <= 254 ==> octet_taken(octets, x),
{
    lemma_free_octet(octets, 1);
}

proof fn lemma_find_block(first: u8, elsewhere: Seq<u8>, tries: Seq<Tried>, i: int)
    requires
        BLOCK_FIRST <= first <= BLOCK_LAST,
        0 <= i,
    ensures
        match find_block(first, elsewhere, tries, i) {
            Search::Free(b) => BLOCK_FIRST <= b <= BLOCK_LAST && !elsewhere.contains(b) && answer(
                tries,
                Loopback { block: b, octet: 1 },
            ) == Some(true),
            Search::Untried(b) => BLOCK_FIRST <= b <= BLOCK_LAST && !elsewhere.contains(b) && answer(
                tries,
                Loopback { block: b, octet: 1 },
            ) is None,
            Search::Exhausted => true,
        },
    decreases SPAN - i,
{
    if i < SPAN {
        assert((first - BLOCK_FIRST + i) % 231 < 231 && (first - BLOCK_FIRST + i) % 231 >= 0);
        lemma_find_block(first, elsewhere, tries, i + 1);
    }
}

/// Where the scan gives up, every block of the band is another environment's or failed to bind.
pub proof fn law_scan_gives_up_last(first: u8, elsewhere: Seq<u8>, tries: Seq<Tried>, b: u8)
    requires
        BLOCK_FIRST <= first <= BLOCK_LAST,
        BLOCK_FIRST <= b <= BLOCK_LAST,
        find_block(first, elsewhere, tries, 0) is Exhausted,
    ensures
        elsewhere.contains(b) || answer(tries, Loopback { block: b, octet: 1 }) == Some(false),
{
    let at = (b - first) % 231;
    let s = first - BLOCK_FIRST;
    assert((s + at) % 231 == b - BLOCK_FIRST) by {
        if b >= first {
            assert(at == b - first);
        } else {
            assert(at == b - first + 231);
        }
    }
    assert(scan_block(first, at) == b);
    lemma_exhausted(first, elsewhere, tries, 0, at);
}

proof fn lemma_exhausted(first: u8, elsewhere: Seq<u8>, tries: Seq<Tried>, i: int, at: int)
    requires
        0 <= i <= at < SPAN,
        find_block(first, elsewhere, tries, i) is Exhausted,
    ensures
        elsewhere.contains(scan_block(first, at)) || answer(
            tries,
            Loopback { block: scan_block(first, at), octet: 1 },
        ) == Some(false),
    decreases at - i,
{
    if i < at {
        lemma_exhausted(first, elsewhere, tries, i + 1, at);
    }
}

/// A remembered address that still binds is kept, whatever else is known.
pub proof fn law_address_is_stable(
    a: AllocationView,
    service: Option<Seq<char>>,
    live: bool,
    ports: Seq<u16>,
    first: u8,
    elsewhere: Seq<u8>,
    tries: Seq<Tried>,
    confirmed: Option<bool>,
)
    requires
        a.address_of(service) is Some,
        answer(tries, a.address_of(service)->0) == Some(true),
    ensures
        next_step(Some(a), service, live, ports, first, elsewhere, tries, confirmed) == StepView::Keep(
            a.address_of(service)->0,
        ),
{
}

/// An address never moves under a running relay: while anything is published, an allocation
/// that is written down is on the block the environment has.
pub proof fn law_live_block_is_pinned(
    a: AllocationView,
    service: Option<Seq<char>>,
    ports: Seq<u16>,
    first: u8,
    elsewhere: Seq<u8>,
    tries: Seq<Tried>,
    confirmed: Option<bool>,
)
    ensures
        match next_step(Some(a), service, true, ports, first, elsewhere, tries, confirmed) {
            StepView::Save(b, addr) => b.block == a.block && addr.block == a.block,
            StepView::Keep(addr) => addr.block == a.block,
            StepView::Try(addr) => addr.block == a.block,
            StepView::Confirm(addr) => addr.block == a.block,
            StepView::Refuse(_) => true,
        },
{
}

/// Giving a service the free octet keeps every octet distinct and every other service's as it
/// was.
proof fn lemma_octet_added(a: AllocationView, service: Option<Seq<char>>, octet: u8)
    requires
        a.wf(),
        !octet_taken(a.octets, octet as int),
    ensures
        a.with_octet(service, octet).wf(),
        a.with_octet(service, octet).address_of(service) == Some(Loopback { block: a.block, octet }),
        forall|s: Option<Seq<char>>|
            octet_key(s) != octet_key(service) ==> #[trigger] a.with_octet(service, octet).address_of(s)
                == a.address_of(s),
{
    let k = octet_key(service);
    let b = a.with_octet(service, octet).octets;
    lemma_with_entry(a.octets, k, octet);
    assert forall|i: int, j: int| 0 <= i < j < b.len() implies (#[trigger] b[i]).1 != (#[trigger] b[j]).1 by {
        crate::entries::lemma_with_entry_items(a.octets, k, octet, i);
        crate::entries::lemma_with_entry_items(a.octets, k, octet, j);
        lemma_entry_at(b, i);
        lemma_entry_at(b, j);
        if b[i] != (k, octet) && b[j] != (k, octet) {
            let p = choose|p: int| 0 <= p < a.octets.len() && a.octets[p] == b[i];
            let q = choose|q: int| 0 <= q < a.octets.len() && a.octets[q] == b[j];
            if p == q {
                crate::text::lemma_before_irreflexive(b[i].0);
            }
        } else if b[i] == (k, octet) && b[j] == (k, octet) {
            crate::text::lemma_before_irreflexive(k);
        } else if b[i] == (k, octet) {
            let q = choose|q: int| 0 <= q < a.octets.len() && a.octets[q] == b[j];
            assert(a.octets[q].1 != octet);
        } else {
            let p = choose|p: int| 0 <= p < a.octets.len() && a.octets[p] == b[i];
            assert(a.octets[p].1 != octet);
        }
    }
}

/// What is written down: the service has the address, no two services share one, every other
/// service of a block that was kept has what it had, and a block newly chosen is in the band
/// and no other environment's.
pub proof fn law_saved_allocation(
    alloc: Option<AllocationView>,
    service: Option<Seq<char>>,
    live: bool,
    ports: Seq<u16>,
    first: u8,
    elsewhere: Seq<u8>,
    tries: Seq<Tried>,
    confirmed: Option<bool>,
)
    requires
        BLOCK_FIRST <= first <= BLOCK_LAST,
        alloc matches Some(a) ==> a.wf(),
    ensures
        next_step(alloc, service, live, ports, first, elsewhere, tries, confirmed) matches StepView::Save(b, addr) ==> {
            &&& b.wf()
            &&& b.address_of(service) == Some(addr)
            &&& 1 <= addr.octet <= 254
            &&& confirmed == Some(true)
            &&& if alloc is Some && alloc->0.address_of(service) is None {
                &&& b.block == alloc->0.block
                &&& forall|s: Option<Seq<char>>|
                    octet_key(s) != octet_key(service) ==> #[trigger] b.address_of(s) == alloc->0.address_of(s)
            } else {
                &&& BLOCK_FIRST <= b.block <= BLOCK_LAST
                &&& !elsewhere.contains(b.block)
            }
        },
{
    let none = AllocationView { block: 0, octets: Seq::empty() };
    lemma_find_block(first, elsewhere, tries, 0);
    if alloc is Some && alloc->0.address_of(service) is None {
        let a = alloc->0;
        lemma_free_octet(a.octets, 1);
        if let Some(o) = free_octet(a.octets, 1) {
            lemma_octet_added(a, service, o);
        }
    } else if let Search::Free(b) = find_block(first, elsewhere, tries, 0) {
        let a = AllocationView { block: b, octets: Seq::empty() };
        lemma_free_octet(a.octets, 1);
        if let Some(o) = free_octet(a.octets, 1) {
            lemma_octet_added(a, service, o);
        }
    }
}

/// Forgetting a service's octet keeps the block and every other service's octet, and changes
/// nothing while the service has a publisher up.
pub proof fn law_forgetting_moves_no_other(
    a: AllocationView,
    service: Option<Seq<char>>,
    still_up: Seq<Seq<char>>,
)
    requires
        a.wf(),
    ensures
        still_up.len() > 0 ==> forgotten(Some(a), service, still_up).save is None,
        forgotten(Some(a), service, still_up).save matches Some(b) ==> {
            &&& b.block == a.block
            &&& b.wf()
            &&& b.address_of(service) is None
            &&& forall|s: Option<Seq<char>>|
                octet_key(s) != octet_key(service) ==> #[trigger] b.address_of(s) == a.address_of(s)
        },
{
    let k = octet_key(service);
    lemma_without(a.octets, k);
    let b = without(a.octets, k);
    let at = crate::entries::place_from(a.octets, k, 0);
    crate::entries::lemma_place(a.octets, k, 0);
    assert forall|i: int, j: int| 0 <= i < j < b.len() implies (#[trigger] b[i]).1 != (#[trigger] b[j]).1 by {
        if at < a.octets.len() {
            let p = if i < at { i } else { i + 1 };
            let q = if j < at { j } else { j + 1 };
            assert(b[i] == a.octets[p] && b[j] == a.octets[q]);
        }
    }
}

/// The block a scan starts at is in the band.
pub proof fn law_preferred_block_in_band(state_dir: Seq<u8>)
    ensures
        BLOCK_FIRST <= first_block(state_dir) <= BLOCK_LAST,
{
    let n = big_endian(sha256_of(state_dir));
    assert(0 <= n % 231 < 231);
}

/// An allocation carried to its end in at most `fuel` steps, where every try to bind succeeds: what
/// is written down then, and the address.
pub open spec fn settled(
    alloc: Option<AllocationView>,
    service: Option<Seq<char>>,
    live: bool,
    ports: Seq<u16>,
    first: u8,
    elsewhere: Seq<u8>,
    tries: Seq<Tried>,
    confirmed: Option<bool>,
    fuel: nat,
) -> Option<Result<(Option<AllocationView>, Loopback), Seq<char>>>
    decreases fuel,
{
    if fuel == 0 {
        None
    } else {
        match next_step(alloc, service, live, ports, first, elsewhere, tries, confirmed) {
            StepView::Try(addr) => settled(
                alloc,
                service,
                live,
                ports,
                first,
                elsewhere,
                tries.push(Tried { addr, bound: true }),
                confirmed,
                (fuel - 1) as nat,
            ),
            StepView::Confirm(_) => settled(
                alloc,
                service,
                live,
                ports,
                first,
                elsewhere,
                tries,
                Some(true),
                (fuel - 1) as nat,
            ),
            StepView::Keep(addr) => Some(Ok((alloc, addr))),
            StepView::Save(b, addr) => Some(Ok((Some(b), addr))),
            StepView::Refuse(e) => Some(Err(e)),
        }
    }
}

/// An allocation begun with nothing tried, where every try to bind succeeds. It takes three steps
/// at most.
pub open spec fn allocated(
    alloc: Option<AllocationView>,
    service: Option<Seq<char>>,
    live: bool,
    ports: Seq<u16>,
    first: u8,
    elsewhere: Seq<u8>,
) -> Option<Result<(Option<AllocationView>, Loopback), Seq<char>>> {
    settled(alloc, service, live, ports, first, elsewhere, Seq::empty(), None, 3)
}

proof fn lemma_tried(addr: Loopback)
    ensures
        answer(Seq::<Tried>::empty(), addr) is None,
        answer(Seq::<Tried>::empty().push(Tried { addr, bound: true }), addr) == Some(true),
{
    let one = Seq::<Tried>::empty().push(Tried { addr, bound: true });
    assert(one[0] == (Tried { addr, bound: true }));
    reveal_with_fuel(answer_from, 2);
}

proof fn lemma_untried_then_free(first: u8, elsewhere: Seq<u8>, b: u8, i: int)
    requires
        0 <= i,
        find_block(first, elsewhere, Seq::empty(), i) == Search::Untried(b),
    ensures
        find_block(
            first,
            elsewhere,
            Seq::<Tried>::empty().push(Tried { addr: Loopback { block: b, octet: 1 }, bound: true }),
            i,
        ) == Search::Free(b),
    decreases SPAN - i,
{
    let here = scan_block(first, i);
    lemma_tried(Loopback { block: here, octet: 1 });
    if elsewhere.contains(here) {
        lemma_untried_then_free(first, elsewhere, b, i + 1);
    } else {
        assert(here == b);
    }
}

proof fn lemma_never_free(first: u8, elsewhere: Seq<u8>, i: int)
    requires
        0 <= i,
    ensures
        !(find_block(first, elsewhere, Seq::empty(), i) is Free),
    decreases SPAN - i,
{
    if i < SPAN {
        lemma_tried(Loopback { block: scan_block(first, i), octet: 1 });
        lemma_never_free(first, elsewhere, i + 1);
    }
}

/// One block per environment and one octet per service, remembered: the first service gets the
/// first octet of a block of the band, another the second of the same block, and the first its own
/// again whatever else is so by then.
pub proof fn law_allocation_is_remembered(
    s: Option<Seq<char>>,
    t: Option<Seq<char>>,
    live: bool,
    ports: (Seq<u16>, Seq<u16>, Seq<u16>),
    first: u8,
    elsewhere: (Seq<u8>, Seq<u8>, Seq<u8>),
)
    requires
        BLOCK_FIRST <= first <= BLOCK_LAST,
        octet_key(s) != octet_key(t),
        allocated(None, s, false, ports.0, first, elsewhere.0) matches Some(Ok(_)),
    ensures
        ({
            let (one, a) = allocated(None, s, false, ports.0, first, elsewhere.0)->0->Ok_0;
            let second = allocated(one, t, false, ports.1, first, elsewhere.1);
            &&& BLOCK_FIRST <= a.block <= BLOCK_LAST
            &&& a.octet == 1
            &&& second matches Some(Ok((two, b))) && b == (Loopback { block: a.block, octet: 2 }) && allocated(
                two,
                s,
                live,
                ports.2,
                first,
                elsewhere.2,
            ) == Some(Ok::<(Option<AllocationView>, Loopback), Seq<char>>((two, a)))
        }),
{
    let none = Seq::<Tried>::empty();
    let no_octets = Seq::<(Seq<char>, u8)>::empty();
    reveal_with_fuel(settled, 4);
    reveal_with_fuel(free_octet, 3);
    lemma_never_free(first, elsewhere.0, 0);
    lemma_find_block(first, elsewhere.0, none, 0);
    let k = match find_block(first, elsewhere.0, none, 0) {
        Search::Untried(b) => b,
        _ => 0,
    };
    assert(find_block(first, elsewhere.0, none, 0) == Search::Untried(k));
    lemma_untried_then_free(first, elsewhere.0, k, 0);
    let fresh = AllocationView { block: k, octets: no_octets };
    assert(!octet_taken(no_octets, 1));
    lemma_octet_added(fresh, s, 1);
    let one = fresh.with_octet(s, 1);
    let a = Loopback { block: k, octet: 1 };
    assert(allocated(None, s, false, ports.0, first, elsewhere.0) == Some(
        Ok::<(Option<AllocationView>, Loopback), Seq<char>>((Some(one), a)),
    ));
    assert(one.octets =~= seq![(octet_key(s), 1u8)]);
    assert(one.octets[0].1 == 1);
    assert(octet_taken(one.octets, 1));
    assert(!octet_taken(one.octets, 2));
    assert(one.address_of(t) == fresh.address_of(t));
    assert(fresh.address_of(t) is None);
    lemma_octet_added(one, t, 2);
    let two = one.with_octet(t, 2);
    assert(allocated(Some(one), t, false, ports.1, first, elsewhere.1) == Some(
        Ok::<(Option<AllocationView>, Loopback), Seq<char>>((Some(two), Loopback { block: k, octet: 2 })),
    ));
    assert(two.address_of(s) == Some(a));
    lemma_tried(a);
}

} // verus!
