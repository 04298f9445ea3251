//! The events that a poll gives rise to.

use vstd::prelude::*;
use vstd::string::*;
use crate::container::{described, Container, ContainerView};
use crate::text::{decimal, decimal_text};
use crate::reconcile::EventView;

verus! {

/// The views of a list of retained containers.
pub open spec fn container_views(containers: Seq<Container>) -> Seq<ContainerView> {
    containers.map_values(|container: Container| container@)
}

/// What a poll found out about one container.
#[derive(Debug)]
pub enum StackEvents {
    /// A dependent with an address was seen for the first time.
    New(Container),
    /// The target was seen for the first time: the container, the retained
    /// containers that qualify for a patch, and the address of the target.
    Target(Container, Vec<Container>, String),
    /// A retained container is no longer reported.
    Gone(Container),
    /// A container with an address but without the label was seen for the
    /// first time.
    NoFlag(Container),
    /// A container without an address on the monitored network was seen for
    /// the first time.
    OutsideNetwork(Container),
}

impl View for StackEvents {
    type V = EventView;

    open spec fn view(&self) -> EventView {
        match self {
            StackEvents::New(container) => EventView::New(container@),
            StackEvents::Target(container, active, ip) => EventView::Target(
                container@,
                container_views(active@),
                ip@,
            ),
            StackEvents::Gone(container) => EventView::Gone(container@),
            StackEvents::NoFlag(container) => EventView::NoFlag(container@),
            StackEvents::OutsideNetwork(container) => EventView::OutsideNetwork(container@),
        }
    }
}

/// The line that tells of an event.
pub open spec fn headline(event: EventView) -> Seq<char> {
    match event {
        EventView::Target(container, active, _) => "event found target: "@ + described(container)
            + " applying it to known "@ + decimal(active.len()) + " containers"@,
        EventView::New(container) => "event container match: "@ + described(container),
        EventView::Gone(container) => "event container gone: "@ + described(container),
        EventView::NoFlag(container) => "event container ignored (label): "@ + described(
            container,
        ),
        EventView::OutsideNetwork(container) => "event container ignored (network): "@
            + described(container),
    }
}

impl StackEvents {
    /// The line that tells of the event.
    pub fn to_string(&self) -> (line: String)
        ensures
            line@ == headline(self@),
    {
        match self {
            StackEvents::Target(container, active, _) => {
                let mut line = String::from_str("event found target: ");
                line.append(container.to_string().as_str());
                line.append(" applying it to known ");
                line.append(decimal_text(active.len()).as_str());
                line.append(" containers");
                line
            },
            StackEvents::New(container) => {
                let mut line = String::from_str("event container match: ");
                line.append(container.to_string().as_str());
                line
            },
            StackEvents::Gone(container) => {
                let mut line = String::from_str("event container gone: ");
                line.append(container.to_string().as_str());
                line
            },
            StackEvents::NoFlag(container) => {
                let mut line = String::from_str("event container ignored (label): ");
                line.append(container.to_string().as_str());
                line
            },
            StackEvents::OutsideNetwork(container) => {
                let mut line = String::from_str("event container ignored (network): ");
                line.append(container.to_string().as_str());
                line
            },
        }
    }
}

/// The views of a list of events.
pub open spec fn event_views(events: Seq<StackEvents>) -> Seq<EventView> {
    events.map_values(|event: StackEvents| event@)
}

/// The views of a list with one more container.
pub proof fn lemma_container_views_push(containers: Seq<Container>, container: Container)
    ensures
        container_views(containers.push(container)) == container_views(containers).push(
            container@,
        ),
{
    assert(container_views(containers.push(container)) =~= container_views(containers).push(
        container@,
    ));
}

/// The views of a list with one more event.
pub proof fn lemma_event_views_push(events: Seq<StackEvents>, event: StackEvents)
    ensures
        event_views(events.push(event)) == event_views(events).push(event@),
{
    assert(event_views(events.push(event)) =~= event_views(events).push(event@));
}

} // verus!
