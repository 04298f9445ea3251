//! The state that lasts from one poll to the next.

use vstd::prelude::*;
use crate::container::{Config, ConfigView, Container, ContainerView};
use crate::event::{
    container_views, event_views, lemma_container_views_push, lemma_event_views_push, StackEvents,
};
use crate::patch::{patch_views, HostsPatch, PatchView};
use crate::reconcile::{
    active_participants, arrivals, departed, gone, known_at, known_once, knows, not_known,
    not_reported, participating, reconcile_events, reconcile_known, retained, sighting,
    still_reported, survivors, EventView,
};
use crate::snapshot::{reported_once, reports, Snapshot};
use crate::text::copy_texts;

verus! {

/// Mathematical model of a [`CurrentStack`].
pub struct StackView {
    /// The configuration.
    pub config: ConfigView,
    /// Address of the target, once one has been recorded.
    pub target_ip: Option<Seq<char>>,
    /// The retained containers, each identity once.
    pub known: Seq<ContainerView>,
}

/// The request to point `container` at `host` under `config`.
pub open spec fn patch_of(config: ConfigView, host: Seq<char>) -> spec_fn(ContainerView) -> PatchView {
    |container: ContainerView|
        PatchView {
            container,
            dependencies: config.dependencies,
            network: config.network,
            target: config.target,
            host,
        }
}

/// The requests that an event calls for, in the order in which they are to be
/// made. A target seen for the first time is applied to every participant. A
/// dependent seen for the first time is patched with the address on record,
/// and left alone while there is none. No other event calls for anything.
pub open spec fn requests(
    config: ConfigView,
    target_ip: Option<Seq<char>>,
    event: EventView,
) -> Seq<PatchView> {
    match event {
        EventView::Target(_, active, ip) => active.map_values(patch_of(config, ip)),
        EventView::New(container) => match target_ip {
            Some(ip) => seq![patch_of(config, ip)(container)],
            None => Seq::empty(),
        },
        _ => Seq::empty(),
    }
}

/// The address on record once the requests of an event have been carried
/// out: that of the target when the event is a `Target`, else what it was.
pub open spec fn settled(target_ip: Option<Seq<char>>, event: EventView) -> Option<Seq<char>> {
    match event {
        EventView::Target(_, _, ip) => Some(ip),
        _ => target_ip,
    }
}

/// An address on record is never cleared: whatever the event, there is one
/// afterwards if there was one before.
pub proof fn lemma_target_ip_is_sticky(target_ip: Option<Seq<char>>, event: EventView)
    requires
        target_ip is Some,
    ensures
        settled(target_ip, event) is Some,
{
}

/// The containers of the last poll, and the address of the target.
#[derive(Debug)]
pub struct CurrentStack {
    config: Config,
    target_ip: Option<String>,
    map: Vec<Container>,
}

impl View for CurrentStack {
    type V = StackView;

    closed spec fn view(&self) -> StackView {
        StackView {
            config: self.config@,
            target_ip: crate::container::text_of(self.target_ip),
            known: container_views(self.map@),
        }
    }
}

impl CurrentStack {
    /// No identity is retained twice.
    #[verifier::type_invariant]
    pub open spec fn well_formed(&self) -> bool {
        known_once(self@.known)
    }

    /// The state before the first poll: no container is retained and no
    /// address of the target is recorded.
    pub fn new(config: Config) -> (stack: CurrentStack)
        ensures
            stack@ == (StackView {
                config: config@,
                target_ip: None,
                known: Seq::<ContainerView>::empty(),
            }),
    {
        let stack = CurrentStack { config, target_ip: None, map: Vec::new() };
        assert(stack@.known =~= Seq::<ContainerView>::empty());
        stack
    }

    /// The configuration.
    pub fn config(&self) -> (config: &Config)
        ensures
            config@ == self@.config,
    {
        &self.config
    }

    /// The address of the target, once one has been recorded.
    pub fn target_ip(&self) -> (ip: Option<String>)
        ensures
            crate::container::text_of(ip) == self@.target_ip,
    {
        crate::container::copy_text(&self.target_ip)
    }

    /// The retained containers.
    pub fn containers(&self) -> (containers: Vec<Container>)
        ensures
            container_views(containers@) == self@.known,
            known_once(self@.known),
    {
        proof {
            use_type_invariant(self);
        }
        copy_containers(&self.map)
    }

    fn patch(&self, container: &Container, host: &String) -> (patch: HostsPatch)
        ensures
            patch@ == patch_of(self@.config, host@)(container@),
    {
        HostsPatch {
            container: container.clone(),
            dependencies: copy_texts(&self.config.dependencies),
            network: self.config.network.clone(),
            target: self.config.target.clone(),
            host: host.clone(),
        }
    }

    /// The requests that `event` calls for, in order. They are to be carried
    /// out one after the other; when one fails the rest is dropped, and the
    /// event is not settled.
    pub fn requests_for(&self, event: &StackEvents) -> (patches: Vec<HostsPatch>)
        ensures
            patch_views(patches@) == requests(self@.config, self@.target_ip, event@),
    {
        let mut patches: Vec<HostsPatch> = Vec::new();
        match event {
            StackEvents::Target(_, active, ip) => {
                let mut at: usize = 0;
                while at < active.len()
                    invariant
                        at <= active.len(),
                        patch_views(patches@) == container_views(active@).take(
                            at as int,
                        ).map_values(patch_of(self@.config, ip@)),
                    decreases active.len() - at,
                {
                    let patch = self.patch(&active[at], ip);
                    proof {
                        let views = container_views(active@);
                        assert(views.take(at + 1) =~= views.take(at as int).push(active@[at as int]@));
                        views.take(at as int).lemma_push_map_commute(
                            patch_of(self@.config, ip@),
                            active@[at as int]@,
                        );
                        assert(patch_views(patches@.push(patch)) =~= patch_views(patches@).push(
                            patch@,
                        ));
                    }
                    patches.push(patch);
                    at += 1;
                }
                assert(container_views(active@).take(at as int) =~= container_views(active@));
            },
            StackEvents::New(container) => {
                match &self.target_ip {
                    Some(ip) => {
                        let patch = self.patch(container, ip);
                        patches.push(patch);
                        assert(patch_views(patches@) =~= seq![patch@]);
                    },
                    None => {
                        assert(patch_views(patches@) =~= Seq::<PatchView>::empty());
                    },
                }
            },
            _ => {
                assert(patch_views(patches@) =~= Seq::<PatchView>::empty());
            },
        }
        patches
    }

    /// Records what `event` leaves behind once its requests have been carried
    /// out: the address of the target, when the event is a `Target`.
    pub fn settle(&mut self, event: &StackEvents)
        ensures
            final(self)@ == (StackView {
                target_ip: settled(old(self)@.target_ip, event@),
                ..old(self)@
            }),
    {
        proof {
            use_type_invariant(&*self);
        }
        match event {
            StackEvents::Target(_, _, ip) => {
                self.target_ip = Some(ip.clone());
            },
            _ => {},
        }
    }

    /// Where the container of `id` is retained, if it is.
    fn position(&self, id: &str) -> (found: Option<usize>)
        ensures
            match found {
                Some(at) => known_at(self@.known, id@, at as int),
                None => !knows(self@.known, id@),
            },
    {
        let wanted = id.to_owned();
        let mut at: usize = 0;
        while at < self.map.len()
            invariant
                at <= self.map.len(),
                wanted@ == id@,
                forall|earlier: int| 0 <= earlier < at ==> !known_at(self@.known, id@, earlier),
            decreases self.map.len() - at,
        {
            if self.map[at].id() == wanted {
                return Some(at);
            }
            at += 1;
        }
        None
    }

    /// Takes in one poll. Every retained container that `raw_containers` does
    /// not report gives a `Gone` event and is dropped; every report of an
    /// identity that is not retained is classified, gives its event and is
    /// retained from now on. A container that stays is not looked at again.
    pub fn actualize(&mut self, raw_containers: Snapshot) -> (events: Vec<StackEvents>)
        ensures
            event_views(events@) == reconcile_events(
                old(self)@.known,
                raw_containers@,
                old(self)@.config,
            ),
            final(self)@ == (StackView {
                known: reconcile_known(old(self)@.known, raw_containers@, old(self)@.config),
                ..old(self)@
            }),
            known_once(old(self)@.known),
            reported_once(raw_containers@),
            known_once(final(self)@.known),
            forall|id: Seq<char>| knows(final(self)@.known, id) <==> reports(raw_containers@, id),
    {
        let ghost known = self@.known;
        let ghost snapshot = raw_containers@;
        let ghost config = self@.config;
        let mut events: Vec<StackEvents> = Vec::new();
        let mut kept: Vec<Container> = Vec::new();
        let mut active: Vec<Container> = Vec::new();
        let mut i: usize = 0;
        while i < self.map.len()
            invariant
                i <= self.map.len(),
                known == self@.known,
                snapshot == raw_containers@,
                container_views(kept@) == survivors(known.take(i as int), snapshot),
                container_views(active@) == active_participants(known.take(i as int), snapshot),
                event_views(events@) == departed(known.take(i as int), snapshot).map_values(
                    gone(),
                ),
            decreases self.map.len() - i,
        {
            let container = &self.map[i];
            let id = container.id();
            proof {
                let before = known.take(i as int);
                assert(known[i as int] == container@);
                assert(known.take(i + 1) =~= before.push(container@));
                before.lemma_filter_push(container@, still_reported(snapshot));
                before.lemma_filter_push(container@, not_reported(snapshot));
                survivors(before, snapshot).lemma_filter_push(container@, participating());
                departed(before, snapshot).lemma_push_map_commute(gone(), container@);
            }
            if raw_containers.contains_key(id.as_str()) {
                if container.is_participant() {
                    let copy = container.clone();
                    proof {
                        lemma_container_views_push(active@, copy);
                    }
                    active.push(copy);
                }
                let copy = container.clone();
                proof {
                    lemma_container_views_push(kept@, copy);
                }
                kept.push(copy);
            } else {
                let event = StackEvents::Gone(container.clone());
                proof {
                    lemma_event_views_push(events@, event);
                }
                events.push(event);
            }
            i += 1;
        }
        assert(known.take(i as int) =~= known);
        let ghost participants = active_participants(known, snapshot);
        let mut j: usize = 0;
        while j < raw_containers.len()
            invariant
                j <= snapshot.len(),
                known == self@.known,
                config == self@.config,
                snapshot == raw_containers@,
                container_views(active@) == participants,
                container_views(kept@) == survivors(known, snapshot) + arrivals(
                    known,
                    snapshot.take(j as int),
                ).map_values(retained(config)),
                event_views(events@) == departed(known, snapshot).map_values(gone()) + arrivals(
                    known,
                    snapshot.take(j as int),
                ).map_values(sighting(config, participants)),
            decreases snapshot.len() - j,
        {
            let raw = raw_containers.entry(j);
            proof {
                let before = snapshot.take(j as int);
                assert(snapshot.take(j + 1) =~= before.push(raw@));
                before.lemma_filter_push(raw@, not_known(known));
                arrivals(known, before).lemma_push_map_commute(retained(config), raw@);
                arrivals(known, before).lemma_push_map_commute(
                    sighting(config, participants),
                    raw@,
                );
            }
            if self.position(raw.id.as_str()).is_none() {
                let container = Container::derive(
                    raw,
                    self.config.network.as_str(),
                    self.config.label_key.as_str(),
                );
                let event = self.first_sighting(container.clone(), &active);
                proof {
                    lemma_event_views_push(events@, event);
                    lemma_container_views_push(kept@, container);
                    assert(event@ == sighting(config, participants)(raw@));
                    assert(container@ == retained(config)(raw@));
                }
                events.push(event);
                kept.push(container);
            }
            j += 1;
        }
        assert(snapshot.take(j as int) =~= snapshot);
        proof {
            use_type_invariant(&*self);
            use_type_invariant(&raw_containers);
            crate::reconcile::lemma_known_after(known, snapshot, config);
        }
        self.map = kept;
        events
    }

    /// The event for a container that is seen for the first time, when
    /// `active` are the participants.
    fn first_sighting(&self, container: Container, active: &Vec<Container>) -> (event: StackEvents)
        ensures
            event@ == crate::reconcile::classify(
                container@,
                self@.config.target,
                container_views(active@),
            ),
    {
        let ip = container.ip();
        let service = container.service();
        let is_target = match &service {
            Some(name) => *name == self.config.target,
            None => false,
        };
        match ip {
            Some(address) => {
                if is_target {
                    StackEvents::Target(container, copy_containers(active), address)
                } else if container.flag().is_some() {
                    StackEvents::New(container)
                } else {
                    StackEvents::NoFlag(container)
                }
            },
            None => StackEvents::OutsideNetwork(container),
        }
    }
}

/// A copy of a list of containers.
pub fn copy_containers(containers: &Vec<Container>) -> (copy: Vec<Container>)
    ensures
        container_views(copy@) == container_views(containers@),
{
    let mut copy: Vec<Container> = Vec::new();
    let mut at: usize = 0;
    while at < containers.len()
        invariant
            at <= containers.len(),
            container_views(copy@) == container_views(containers@.take(at as int)),
        decreases containers.len() - at,
    {
        let container = containers[at].clone();
        proof {
            lemma_container_views_push(copy@, container);
            lemma_container_views_push(containers@.take(at as int), containers@[at as int]);
            assert(containers@.take(at + 1) =~= containers@.take(at as int).push(
                containers@[at as int],
            ));
        }
        copy.push(container);
        at += 1;
    }
    assert(containers@.take(at as int) =~= containers@);
    copy
}

} // verus!
