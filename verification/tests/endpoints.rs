use vk_dev::endpoints::{
    address_of, allocate, auto_ports, blocks_taken_elsewhere, forget, listen_on, moved_note, named, preferred_block,
    published_names, render, shared_base, url_on, views, Allocation, Elsewhere, EndpointState, Loopback, Step, Tried,
    Which, BLOCK_FIRST, BLOCK_LAST,
};
use vk_dev::path::HostPath;
use vk_dev::plan::EndpointPlan;

fn p(s: &str) -> HostPath {
    HostPath::from_text(s)
}

fn ep(name: &str, service: Option<&str>, port: u16, scheme: Option<&str>) -> EndpointPlan {
    EndpointPlan {
        name: name.into(),
        service: service.map(String::from),
        host_port: port,
        address: "auto".into(),
        listen: format!("tcp://auto:{port}"),
        to: format!("tcp://{}:{port}", service.unwrap_or("127.0.0.1")),
        scheme: scheme.map(String::from),
        path: scheme.map(|_| "/ui".to_string()),
        required: false,
    }
}

fn svc(name: &str) -> Option<String> {
    Some(name.to_string())
}

/// A host: what is bound on it, and what environments on it wrote down.
struct Base {
    squatted: Vec<(Loopback, u16)>,
    wrote: Vec<(String, Option<Allocation>)>,
}

impl Base {
    fn new() -> Base {
        Base { squatted: vec![], wrote: vec![] }
    }

    fn load(&self, dir: &str) -> Option<Allocation> {
        self.wrote.iter().find(|(d, _)| d == dir).and_then(|(_, a)| a.as_ref()).map(|a| a.copy())
    }

    fn save(&mut self, dir: &str, a: Allocation) {
        self.wrote.retain(|(d, _)| d != dir);
        self.wrote.push((dir.to_string(), Some(a)));
    }

    fn bindable(&self, at: Loopback, ports: &[u16]) -> bool {
        !ports.iter().any(|q| self.squatted.contains(&(at, *q)))
    }

    fn allocate(
        &mut self,
        dir: &str,
        eps: &Vec<EndpointPlan>,
        service: Option<String>,
        live: bool,
    ) -> Result<Loopback, String> {
        let ports = auto_ports(eps, &service, &vec![]);
        let found: Vec<Elsewhere> = self
            .wrote
            .iter()
            .filter_map(|(d, a)| a.as_ref().map(|a| Elsewhere { dir: p(d), block: a.block }))
            .collect();
        let elsewhere = blocks_taken_elsewhere(&found, &p(dir));
        let alloc = self.load(dir);
        let mut tries = vec![];
        let mut confirmed = None;
        loop {
            match allocate(&alloc, &service, live, &ports, preferred_block(&p(dir)), &elsewhere, &tries, confirmed) {
                Step::Try(a) => tries.push(Tried { addr: a, bound: self.bindable(a, &ports) }),
                Step::Confirm(a) => confirmed = Some(self.bindable(a, &ports)),
                Step::Keep(a) => return Ok(a),
                Step::Save(x, a) => {
                    self.save(dir, x);
                    return Ok(a);
                }
                Step::Refuse(e) => return Err(e.message),
            }
        }
    }
}

#[test]
fn allocation_is_stable_per_service_and_remembered() {
    let mut base = Base::new();
    let eps = vec![
        ep("r.https", Some("runner"), 8443, Some("https")),
        ep("r2.https", Some("runner-2"), 8443, Some("https")),
        ep("web", None, 8080, None),
    ];
    let dir = "/base/state";
    let a = base.allocate(dir, &eps, svc("runner"), false).unwrap();
    let b = base.allocate(dir, &eps, svc("runner-2"), false).unwrap();
    let c = base.allocate(dir, &eps, None, false).unwrap();
    // One block, one octet each, in allocation order; re-asking answers the same.
    assert_eq!(a.block, b.block);
    assert_eq!((a.octet, b.octet, c.octet), (1, 2, 3));
    assert_eq!(base.allocate(dir, &eps, svc("runner"), false).unwrap(), a);
    let remembered = base.load(dir).unwrap();
    assert_eq!(remembered.address(&svc("runner")), Some(a));
    assert_eq!(remembered.address(&None), Some(c));
    assert_eq!(remembered.block, a.block);
    assert!((BLOCK_FIRST..=BLOCK_LAST).contains(&remembered.block), "{remembered:?}");
    // The views name the addresses without allocating anything more.
    let views = views(&eps, &Which::Service("runner".into()), &Some(remembered), &vec![]);
    assert_eq!(views.len(), 1);
    let at = a.to_text();
    assert_eq!(views[0].url, Some(format!("https://{at}:8443/ui")));
    assert_eq!(views[0].listen, Some(format!("tcp://{at}:8443")));
    assert!(!views[0].published);
}

#[test]
fn a_block_another_environment_wrote_down_is_not_offered_again() {
    let mut base = Base::new();
    let eps = vec![ep("web", None, 8080, None)];
    // the second environment would begin at the block that the first took
    let first = "/base/one";
    let a = base.allocate(first, &eps, None, false).unwrap();
    let mut seconds = (0..2000).map(|i| format!("/base/two-{i}"));
    let second = seconds.find(|d| preferred_block(&p(d)) == a.block).unwrap();
    let b = base.allocate(&second, &eps, None, false).unwrap();
    assert_ne!(a.block, b.block, "a block each: {a:?} and {b:?}");
    // Each still answers with its own, and neither took the other into account twice.
    assert_eq!(base.allocate(first, &eps, None, false).unwrap(), a);
    assert_eq!(base.allocate(&second, &eps, None, false).unwrap(), b);
}

#[test]
fn forget_drops_one_services_octet_and_leaves_the_block() {
    let mut base = Base::new();
    let eps = vec![ep("a.web", Some("a"), 8080, None), ep("b.web", Some("b"), 8081, None)];
    let dir = "/base/state";
    let a = base.allocate(dir, &eps, svc("a"), false).unwrap();
    let b = base.allocate(dir, &eps, svc("b"), false).unwrap();

    let left = forget(base.load(dir), &svc("a"), &vec![]).save.unwrap();
    assert_eq!(left.address(&svc("b")), Some(b), "b keeps its address");
    assert_eq!(left.address(&svc("a")), None, "a lost only its own");
    assert_eq!(left.block, a.block, "and the block stayed");
    base.save(dir, left);
    // The next allocation for `a` takes a free octet in the same block.
    let again = base.allocate(dir, &eps, svc("a"), false).unwrap();
    assert_eq!(again.block, a.block);
    assert_ne!(again, b);
}

#[test]
fn a_published_service_keeps_its_address() {
    let alloc = Allocation { block: 30, octets: vec![("a".into(), 1)] };
    let kept = forget(Some(alloc), &svc("a"), &vec!["a.web".into()]);
    assert!(kept.save.is_none());
    assert_eq!(kept.note.as_deref(), Some("virtkit: service a keeps its address: a.web still published"));
    assert!(forget(None, &None, &vec![]).save.is_none());
    assert_eq!(named(&None), "the environment's own endpoints");
}

#[test]
fn a_taken_block_moves_unless_something_of_ours_is_live() {
    let mut base = Base::new();
    let eps = vec![ep("web", None, 8080, None)];
    let dir = "/base/state";
    let first = base.allocate(dir, &eps, None, false).unwrap();
    // Something else squats our address:port while nothing of ours is published.
    base.squatted.push((first, 8080));
    let tried = vec![Tried { addr: first, bound: false }];
    let note = moved_note(&base.load(dir), &None, false, &tried).unwrap();
    assert!(note.starts_with(&format!("virtkit: 127.0.{}.0/24 is taken", first.block)), "{note}");
    assert_eq!(moved_note(&base.load(dir), &None, true, &tried), None);
    let moved = base.allocate(dir, &eps, None, false).unwrap();
    assert_ne!(moved, first);
    assert_ne!(moved.block, first.block, "a different block");
    // With relays of ours live the block is pinned, so a squatter on the port is the
    // caller's to clear rather than a reason to move an address under a running relay.
    base.squatted.push((moved, 8080));
    let e = base.allocate(dir, &eps, None, true).unwrap_err();
    assert!(e.contains("pinned while its relays are up"), "{e}");
    assert!(e.starts_with(&format!("{} cannot bind [8080]", moved.to_text())), "{e}");
    base.squatted.pop();
    assert_eq!(base.allocate(dir, &eps, None, true).unwrap(), moved);
    // Forgetting drops the octet, not the block: the next allocation is in the block
    // this environment already holds.
    let left = forget(base.load(dir), &None, &vec![]).save.unwrap();
    assert!(left.octets.is_empty());
    base.save(dir, left);
    assert_eq!(base.allocate(dir, &eps, None, false).unwrap(), moved);
}

#[test]
fn a_wildcard_listener_takes_every_block() {
    let mut base = Base::new();
    for block in BLOCK_FIRST..=BLOCK_LAST {
        base.squatted.push((Loopback { block, octet: 1 }, 8080));
    }
    let e = base.allocate("/base/state", &vec![ep("web", None, 8080, None)], None, false).unwrap_err();
    assert!(e.starts_with("every 127.0.<20-250>.x block is another environment's"), "{e}");
    assert!(e.contains("one of the ports [8080]; a wildcard listener"), "{e}");
}

#[test]
fn a_block_that_is_lost_again_or_full_is_said_so() {
    let ports = vec![80u16, 443];
    let alloc = Some(Allocation { block: 30, octets: vec![] });
    match allocate(&alloc, &None, false, &ports, 20, &vec![], &vec![], Some(false)) {
        Step::Refuse(e) => assert!(
            e.message.starts_with("127.0.30.1 cannot bind [80, 443], though the block was free a moment ago"),
            "{}",
            e.message
        ),
        other => panic!("{other:?}"),
    }
    let full = Allocation { block: 30, octets: (1..=254u8).map(|o| (format!("{o:03}"), o)).collect() };
    assert_eq!(full.next_octet().unwrap_err().message, "no loopback octet left in this environment's block");
    let gap = Allocation { block: 30, octets: vec![("a".into(), 1), ("b".into(), 3)] };
    assert_eq!(gap.next_octet().unwrap(), 2);
}

#[test]
fn only_the_ports_no_relay_of_ours_holds_are_tried() {
    let mut fixed = ep("fixed", None, 9, None);
    fixed.address = "127.0.0.1".into();
    let eps = vec![ep("web", None, 8080, None), ep("api", None, 8081, None), ep("db", Some("db"), 5432, None), fixed];
    let live = vec!["api".to_string(), "db".to_string()];
    assert_eq!(published_names(&eps, &None, &live), ["api"]);
    assert_eq!(auto_ports(&eps, &None, &live), [8080]);
    assert_eq!(auto_ports(&eps, &svc("db"), &live), [] as [u16; 0]);
}

#[test]
fn preferred_blocks_stay_in_band_and_differ_by_state_dir() {
    let a = preferred_block(&p("/s/one"));
    let b = preferred_block(&p("/s/two"));
    assert!((BLOCK_FIRST..=BLOCK_LAST).contains(&a));
    assert!((BLOCK_FIRST..=BLOCK_LAST).contains(&b));
    assert_eq!(a, preferred_block(&p("/s/one")));
    // Not a proof, but two paths landing on one block would be a 1/231 coincidence.
    assert_ne!(a, b);
}

#[test]
fn addresses_are_as_configured_or_remembered() {
    let alloc = Some(Allocation { block: 21, octets: vec![("".into(), 4)] });
    let auto = ep("web", None, 8080, Some("http"));
    assert_eq!(address_of(&alloc, &auto), Some("127.0.21.4".into()));
    assert_eq!(address_of(&None, &auto), None);
    let mut fixed = ep("web", None, 8080, None);
    fixed.address = "0.0.0.0".into();
    assert_eq!(address_of(&None, &fixed), Some("0.0.0.0".into()));
    assert_eq!(listen_on(&auto, "1.2.3.4"), "tcp://1.2.3.4:8080");
    assert_eq!(url_on(&auto, "1.2.3.4"), Some("http://1.2.3.4:8080/ui".into()));
    assert_eq!(url_on(&fixed, "1.2.3.4"), None);
    assert_eq!(shared_base(&p("/base/state")).unwrap().display(), "/base");
    assert_eq!(shared_base(&p("/")).unwrap_err().message, "/ has no parent directory");
}

#[test]
fn endpoints_are_listed_as_they_are_asked_for() {
    let eps = vec![ep("web", None, 8080, None), ep("db", Some("db"), 5432, None)];
    let names = |w: Which| -> Vec<String> { views(&eps, &w, &None, &vec![]).into_iter().map(|v| v.name).collect() };
    assert_eq!(names(Which::All), ["web", "db"]);
    assert_eq!(names(Which::Primary), ["web"]);
    assert_eq!(names(Which::Service("db".into())), ["db"]);
}

#[test]
fn render_shows_urls_addresses_and_state() {
    let views = vec![
        EndpointState {
            name: "r.https".into(),
            service: Some("runner".into()),
            listen: Some("tcp://127.0.20.1:8443".into()),
            to: "tcp://runner:443".into(),
            url: Some("https://127.0.20.1:8443/ui".into()),
            required: true,
            published: true,
        },
        EndpointState {
            name: "web".into(),
            service: None,
            listen: None,
            to: "tcp://127.0.0.1:8080".into(),
            url: None,
            required: false,
            published: false,
        },
    ];
    let text = render(&views);
    let lines: Vec<&str> = text.lines().collect();
    assert_eq!(lines[0], "NAME     SERVICE  ADDRESS                             TO                    STATE");
    assert_eq!(
        lines[1],
        "r.https  runner   https://127.0.20.1:8443/ui          tcp://runner:443      published"
    );
    assert_eq!(
        lines[2],
        "web               (address allocated when published)  tcp://127.0.0.1:8080  not published"
    );
    assert_eq!(render(&vec![]), "no endpoints configured\n");
}

#[test]
fn an_address_stays_whatever_is_live_by_then() {
    let mut base = Base::new();
    let eps = vec![ep("a", Some("s"), 8443, None), ep("b", Some("t"), 8444, None)];
    let a = base.allocate("/base/x", &eps, svc("s"), false).unwrap();
    let b = base.allocate("/base/x", &eps, svc("t"), false).unwrap();
    assert!((BLOCK_FIRST..=BLOCK_LAST).contains(&a.block));
    assert_eq!(a.to_text(), format!("127.0.{}.1", a.block));
    assert_eq!(b.to_text(), format!("127.0.{}.2", a.block));
    for live in [false, true] {
        assert_eq!(base.allocate("/base/x", &eps, svc("s"), live).unwrap(), a);
    }
}
