//! What one poll changes: the containers that are gone, those seen for the
//! first time and how each of them is classified.
//!
//! Everything here is stated over the views of the retained containers and of
//! the reports, in the order in which they are listed.

use vstd::prelude::*;
use crate::container::{derived, ConfigView, ContainerView, RawView};
use crate::snapshot::{reported_at, reported_once, reports};

verus! {

/// Mathematical model of an event.
pub enum EventView {
    /// A dependent with an address was seen for the first time.
    New(ContainerView),
    /// The target was seen for the first time: the container, the retained
    /// containers that qualify for a patch, and the address of the target.
    Target(ContainerView, Seq<ContainerView>, Seq<char>),
    /// A retained container is no longer reported.
    Gone(ContainerView),
    /// A container with an address but without the label was seen for the
    /// first time.
    NoFlag(ContainerView),
    /// A container without an address on the monitored network was seen for
    /// the first time.
    OutsideNetwork(ContainerView),
}

impl EventView {
    /// The container that the event is about.
    pub open spec fn subject(self) -> ContainerView {
        match self {
            EventView::New(container) => container,
            EventView::Target(container, _, _) => container,
            EventView::Gone(container) => container,
            EventView::NoFlag(container) => container,
            EventView::OutsideNetwork(container) => container,
        }
    }
}

/// The retained container at `at` is that of `id`.
pub open spec fn known_at(known: Seq<ContainerView>, id: Seq<char>, at: int) -> bool {
    0 <= at < known.len() && known[at].id == id
}

/// A container of identity `id` is retained.
pub open spec fn knows(known: Seq<ContainerView>, id: Seq<char>) -> bool {
    exists|at: int| known_at(known, id, at)
}

/// No identity is retained twice.
pub open spec fn known_once(known: Seq<ContainerView>) -> bool {
    forall|i: int, j: int| 0 <= i < j < known.len() ==> known[i].id != known[j].id
}

/// The container carries the label and has an address on the monitored
/// network.
pub open spec fn participates(container: ContainerView) -> bool {
    container.flag is Some && container.ip is Some
}

/// Test for a retained container: the snapshot still reports it.
pub open spec fn still_reported(snapshot: Seq<RawView>) -> spec_fn(ContainerView) -> bool {
    |container: ContainerView| reports(snapshot, container.id)
}

/// Test for a retained container: the snapshot does not report it any more.
pub open spec fn not_reported(snapshot: Seq<RawView>) -> spec_fn(ContainerView) -> bool {
    |container: ContainerView| !reports(snapshot, container.id)
}

/// Test for a report: its identity is not retained yet.
pub open spec fn not_known(known: Seq<ContainerView>) -> spec_fn(RawView) -> bool {
    |raw: RawView| !knows(known, raw.id)
}

/// Test for a retained container: it qualifies for a patch.
pub open spec fn participating() -> spec_fn(ContainerView) -> bool {
    |container: ContainerView| participates(container)
}

/// The retained containers that the snapshot still reports.
pub open spec fn survivors(known: Seq<ContainerView>, snapshot: Seq<RawView>) -> Seq<
    ContainerView,
> {
    known.filter(still_reported(snapshot))
}

/// The retained containers that the snapshot does not report any more.
pub open spec fn departed(known: Seq<ContainerView>, snapshot: Seq<RawView>) -> Seq<
    ContainerView,
> {
    known.filter(not_reported(snapshot))
}

/// The reports of identities that are not retained yet.
pub open spec fn arrivals(known: Seq<ContainerView>, snapshot: Seq<RawView>) -> Seq<RawView> {
    snapshot.filter(not_known(known))
}

/// The survivors that qualify for a patch: those that a target seen for the
/// first time is applied to.
pub open spec fn active_participants(
    known: Seq<ContainerView>,
    snapshot: Seq<RawView>,
) -> Seq<ContainerView> {
    survivors(known, snapshot).filter(participating())
}

/// The event that the first sighting of `container` gives.
///
/// | address | service is the target | label | event            |
/// |---------|-----------------------|-------|------------------|
/// | yes     | yes                   | any   | `Target`         |
/// | yes     | no                    | yes   | `New`            |
/// | yes     | no                    | no    | `NoFlag`         |
/// | no      | any                   | any   | `OutsideNetwork` |
pub open spec fn classify(
    container: ContainerView,
    target: Seq<char>,
    active: Seq<ContainerView>,
) -> EventView {
    if container.ip is Some && container.service == Some(target) {
        EventView::Target(container, active, container.ip->0)
    } else if container.ip is Some && container.flag is Some {
        EventView::New(container)
    } else if container.ip is Some {
        EventView::NoFlag(container)
    } else {
        EventView::OutsideNetwork(container)
    }
}

/// What is retained of a report under `config`.
pub open spec fn retained(config: ConfigView) -> spec_fn(RawView) -> ContainerView {
    |raw: RawView| derived(raw, config.network, config.label_key)
}

/// The event that the first sighting of a report gives under `config`, when
/// `active` are the participants.
pub open spec fn sighting(config: ConfigView, active: Seq<ContainerView>) -> spec_fn(
    RawView,
) -> EventView {
    |raw: RawView| classify(derived(raw, config.network, config.label_key), config.target, active)
}

/// The event for a container that is gone.
pub open spec fn gone() -> spec_fn(ContainerView) -> EventView {
    |container: ContainerView| EventView::Gone(container)
}

/// The events of one poll: one `Gone` for each retained container that
/// `snapshot` does not report, then one sighting for each report of an
/// identity that is not retained.
pub open spec fn reconcile_events(
    known: Seq<ContainerView>,
    snapshot: Seq<RawView>,
    config: ConfigView,
) -> Seq<EventView> {
    departed(known, snapshot).map_values(gone()) + arrivals(known, snapshot).map_values(
        sighting(config, active_participants(known, snapshot)),
    )
}

/// The containers retained after one poll: the survivors, then what is
/// retained of each first sighting.
pub open spec fn reconcile_known(
    known: Seq<ContainerView>,
    snapshot: Seq<RawView>,
    config: ConfigView,
) -> Seq<ContainerView> {
    survivors(known, snapshot) + arrivals(known, snapshot).map_values(retained(config))
}

/// An element of a filtered sequence stands in the sequence it was filtered
/// from, and passes the test.
pub proof fn lemma_filter_source<A>(s: Seq<A>, test: spec_fn(A) -> bool, k: int) -> (i: int)
    requires
        0 <= k < s.filter(test).len(),
    ensures
        0 <= i < s.len(),
        s[i] == s.filter(test)[k],
        test(s[i]),
{
    s.lemma_filter_pred(test, k);
    let element = s.filter(test)[k];
    assert(s.filter(test).contains(element));
    s.lemma_filter_contains_rev(test, element);
    choose|i: int| 0 <= i < s.len() && s[i] == element
}

/// An element that passes the test stands in the filtered sequence.
pub proof fn lemma_filter_target<A>(s: Seq<A>, test: spec_fn(A) -> bool, i: int) -> (k: int)
    requires
        0 <= i < s.len(),
        test(s[i]),
    ensures
        0 <= k < s.filter(test).len(),
        s.filter(test)[k] == s[i],
{
    s.lemma_filter_contains(test, i);
    choose|k: int| 0 <= k < s.filter(test).len() && s.filter(test)[k] == s[i]
}

/// Filtering retained containers leaves no identity twice.
pub proof fn lemma_filter_known_once(known: Seq<ContainerView>, test: spec_fn(ContainerView) -> bool)
    requires
        known_once(known),
    ensures
        known_once(known.filter(test)),
    decreases known.len(),
{
    reveal(Seq::filter);
    if known.len() > 0 {
        let init = known.drop_last();
        lemma_filter_known_once(init, test);
        if test(known.last()) {
            let kept = init.filter(test);
            assert forall|i: int, j: int| 0 <= i < j < kept.push(known.last()).len() implies kept.push(
                known.last(),
            )[i].id != kept.push(known.last())[j].id by {
                if j == kept.len() {
                    let source = lemma_filter_source(init, test, i);
                    assert(known[source].id != known[known.len() - 1].id);
                }
            }
        }
    }
}

/// Filtering reports leaves no identity twice.
pub proof fn lemma_filter_reported_once(snapshot: Seq<RawView>, test: spec_fn(RawView) -> bool)
    requires
        reported_once(snapshot),
    ensures
        reported_once(snapshot.filter(test)),
    decreases snapshot.len(),
{
    reveal(Seq::filter);
    if snapshot.len() > 0 {
        let init = snapshot.drop_last();
        lemma_filter_reported_once(init, test);
        if test(snapshot.last()) {
            let kept = init.filter(test);
            assert forall|i: int, j: int| 0 <= i < j < kept.push(snapshot.last()).len() implies kept.push(
                snapshot.last(),
            )[i].id != kept.push(snapshot.last())[j].id by {
                if j == kept.len() {
                    let source = lemma_filter_source(init, test, i);
                    assert(snapshot[source].id != snapshot[snapshot.len() - 1].id);
                }
            }
        }
    }
}

/// After a poll no identity is retained twice, and the identities retained
/// are exactly those that the snapshot reports.
pub proof fn lemma_known_after(known: Seq<ContainerView>, snapshot: Seq<RawView>, config: ConfigView)
    requires
        known_once(known),
        reported_once(snapshot),
    ensures
        known_once(reconcile_known(known, snapshot, config)),
        forall|id: Seq<char>|
            knows(reconcile_known(known, snapshot, config), id) <==> reports(snapshot, id),
{
    let stay = survivors(known, snapshot);
    let fresh = arrivals(known, snapshot);
    let after = reconcile_known(known, snapshot, config);
    lemma_filter_known_once(known, still_reported(snapshot));
    lemma_filter_reported_once(snapshot, not_known(known));
    assert forall|i: int, j: int| 0 <= i < j < after.len() implies after[i].id != after[j].id by {
        if j < stay.len() {
        } else if i >= stay.len() {
            assert(fresh[i - stay.len()].id != fresh[j - stay.len()].id);
        } else {
            let from = lemma_filter_source(known, still_reported(snapshot), i);
            let to = lemma_filter_source(snapshot, not_known(known), j - stay.len());
            assert(known_at(known, known[from].id, from));
        }
    }
    assert forall|id: Seq<char>| knows(after, id) <==> reports(snapshot, id) by {
        if knows(after, id) {
            let at = choose|at: int| known_at(after, id, at);
            if at < stay.len() {
                let from = lemma_filter_source(known, still_reported(snapshot), at);
            } else {
                let from = lemma_filter_source(snapshot, not_known(known), at - stay.len());
                assert(reported_at(snapshot, id, from));
            }
        }
        if reports(snapshot, id) {
            let at = choose|at: int| reported_at(snapshot, id, at);
            if knows(known, id) {
                let from = choose|from: int| known_at(known, id, from);
                let to = lemma_filter_target(known, still_reported(snapshot), from);
                assert(known_at(after, id, to));
            } else {
                let to = lemma_filter_target(snapshot, not_known(known), at);
                assert(known_at(after, id, stay.len() + to));
            }
        }
    }
}

/// The event at `k` is the only one of `events` about its container's
/// identity.
pub open spec fn sole_event(events: Seq<EventView>, k: int) -> bool {
    &&& 0 <= k < events.len()
    &&& forall|other: int|
        0 <= other < events.len() && other != k ==> events[other].subject().id
            != events[k].subject().id
}

/// What each part of the events of a poll holds: a `Gone` for each departed
/// container, then the sighting of each arrival.
proof fn lemma_event_parts(known: Seq<ContainerView>, snapshot: Seq<RawView>, config: ConfigView)
    ensures
        reconcile_events(known, snapshot, config).len() == departed(known, snapshot).len()
            + arrivals(known, snapshot).len(),
        forall|k: int|
            0 <= k < departed(known, snapshot).len() ==> #[trigger] reconcile_events(
                known,
                snapshot,
                config,
            )[k] == EventView::Gone(departed(known, snapshot)[k]),
        forall|k: int|
            departed(known, snapshot).len() <= k < reconcile_events(known, snapshot, config).len()
                ==> #[trigger] reconcile_events(known, snapshot, config)[k] == classify(
                derived(
                    arrivals(known, snapshot)[k - departed(known, snapshot).len()],
                    config.network,
                    config.label_key,
                ),
                config.target,
                active_participants(known, snapshot),
            ),
{
}

/// The table by which a first sighting is classified: the event is about the
/// container itself, it is never `Gone`, and which of the other four it is
/// goes by the address, the service and the label alone.
pub proof fn lemma_classification(
    container: ContainerView,
    target: Seq<char>,
    active: Seq<ContainerView>,
)
    ensures
        classify(container, target, active).subject() == container,
        match classify(container, target, active) {
            EventView::Target(_, participants, ip) => {
                &&& container.ip == Some(ip)
                &&& container.service == Some(target)
                &&& participants == active
            },
            EventView::New(_) => {
                &&& container.ip is Some
                &&& container.service != Some(target)
                &&& container.flag is Some
            },
            EventView::NoFlag(_) => {
                &&& container.ip is Some
                &&& container.service != Some(target)
                &&& container.flag is None
            },
            EventView::OutsideNetwork(_) => container.ip is None,
            EventView::Gone(_) => false,
        },
{
}

/// Where each event of a poll comes from: a `Gone` is about a retained
/// container that the snapshot does not report, any other event is the
/// sighting of a report whose identity was not retained.
pub proof fn lemma_event_origin(
    known: Seq<ContainerView>,
    snapshot: Seq<RawView>,
    config: ConfigView,
    k: int,
)
    requires
        0 <= k < reconcile_events(known, snapshot, config).len(),
    ensures
        match reconcile_events(known, snapshot, config)[k] {
            EventView::Gone(container) => known.contains(container) && !reports(
                snapshot,
                container.id,
            ),
            event => exists|at: int|
                0 <= at < snapshot.len() && !knows(known, snapshot[at].id) && event == classify(
                    derived(snapshot[at], config.network, config.label_key),
                    config.target,
                    active_participants(known, snapshot),
                ),
        },
{
    lemma_event_parts(known, snapshot, config);
    let events = reconcile_events(known, snapshot, config);
    let gone_count = departed(known, snapshot).len();
    if k < gone_count {
        let from = lemma_filter_source(known, not_reported(snapshot), k);
        assert(events[k] == EventView::Gone(known[from]));
    } else {
        let at = lemma_filter_source(snapshot, not_known(known), k - gone_count);
        lemma_classification(
            derived(snapshot[at], config.network, config.label_key),
            config.target,
            active_participants(known, snapshot),
        );
    }
}

/// No identity is the subject of two events of one poll.
pub proof fn lemma_one_event_per_identity(
    known: Seq<ContainerView>,
    snapshot: Seq<RawView>,
    config: ConfigView,
)
    requires
        known_once(known),
        reported_once(snapshot),
    ensures
        forall|k: int|
            0 <= k < reconcile_events(known, snapshot, config).len() ==> #[trigger] sole_event(
                reconcile_events(known, snapshot, config),
                k,
            ),
{
    lemma_event_parts(known, snapshot, config);
    lemma_filter_known_once(known, not_reported(snapshot));
    lemma_filter_reported_once(snapshot, not_known(known));
    let events = reconcile_events(known, snapshot, config);
    let left = departed(known, snapshot);
    let fresh = arrivals(known, snapshot);
    let active = active_participants(known, snapshot);
    assert forall|k: int| 0 <= k < events.len() implies #[trigger] events[k].subject().id == (if k
        < left.len() {
        left[k].id
    } else {
        fresh[k - left.len()].id
    }) by {
        if k >= left.len() {
            lemma_classification(
                derived(fresh[k - left.len()], config.network, config.label_key),
                config.target,
                active,
            );
        }
    }
    assert forall|k: int| 0 <= k < events.len() implies #[trigger] sole_event(events, k) by {
        assert forall|other: int| 0 <= other < events.len() && other != k implies events[other].subject().id
            != events[k].subject().id by {
            let low = if other < k {
                other
            } else {
                k
            };
            let high = if other < k {
                k
            } else {
                other
            };
            if high < left.len() {
                assert(left[low].id != left[high].id);
            } else if low >= left.len() {
                assert(fresh[low - left.len()].id != fresh[high - left.len()].id);
            } else {
                let from = lemma_filter_source(known, not_reported(snapshot), low);
                let at = lemma_filter_source(snapshot, not_known(known), high - left.len());
                assert(known_at(known, known[from].id, from));
            }
        }
    }
}

/// Every retained container that the snapshot does not report gives exactly
/// one event, a `Gone` that holds the container as it was retained, and is
/// not retained afterwards.
pub proof fn lemma_gone_exactly_once(
    known: Seq<ContainerView>,
    snapshot: Seq<RawView>,
    config: ConfigView,
    at: int,
)
    requires
        known_once(known),
        reported_once(snapshot),
        0 <= at < known.len(),
        !reports(snapshot, known[at].id),
    ensures
        exists|k: int|
            #[trigger] sole_event(reconcile_events(known, snapshot, config), k)
                && reconcile_events(known, snapshot, config)[k] == EventView::Gone(known[at]),
        !knows(reconcile_known(known, snapshot, config), known[at].id),
{
    lemma_event_parts(known, snapshot, config);
    lemma_one_event_per_identity(known, snapshot, config);
    lemma_known_after(known, snapshot, config);
    let k = lemma_filter_target(known, not_reported(snapshot), at);
    assert(sole_event(reconcile_events(known, snapshot, config), k));
}

/// Every report of an identity that was not retained gives exactly one event,
/// the one that the classification table assigns to what is derived from the
/// report, and is retained afterwards.
pub proof fn lemma_first_sighting_exactly_once(
    known: Seq<ContainerView>,
    snapshot: Seq<RawView>,
    config: ConfigView,
    at: int,
)
    requires
        known_once(known),
        reported_once(snapshot),
        0 <= at < snapshot.len(),
        !knows(known, snapshot[at].id),
    ensures
        exists|k: int|
            #[trigger] sole_event(reconcile_events(known, snapshot, config), k)
                && reconcile_events(known, snapshot, config)[k] == classify(
                derived(snapshot[at], config.network, config.label_key),
                config.target,
                active_participants(known, snapshot),
            ),
        reconcile_known(known, snapshot, config).contains(
            derived(snapshot[at], config.network, config.label_key),
        ),
{
    lemma_event_parts(known, snapshot, config);
    lemma_one_event_per_identity(known, snapshot, config);
    let k = lemma_filter_target(snapshot, not_known(known), at);
    let gone_count = departed(known, snapshot).len();
    assert(sole_event(reconcile_events(known, snapshot, config), gone_count + k));
    let after = reconcile_known(known, snapshot, config);
    assert(after[survivors(known, snapshot).len() + k] == derived(
        snapshot[at],
        config.network,
        config.label_key,
    ));
}

/// A retained container that the snapshot still reports gives no event and
/// stays retained as it was.
pub proof fn lemma_survivor_is_silent(
    known: Seq<ContainerView>,
    snapshot: Seq<RawView>,
    config: ConfigView,
    at: int,
)
    requires
        known_once(known),
        0 <= at < known.len(),
        reports(snapshot, known[at].id),
    ensures
        forall|k: int|
            0 <= k < reconcile_events(known, snapshot, config).len() ==> #[trigger] reconcile_events(
                known,
                snapshot,
                config,
            )[k].subject().id != known[at].id,
        reconcile_known(known, snapshot, config).contains(known[at]),
{
    let events = reconcile_events(known, snapshot, config);
    assert forall|k: int| 0 <= k < events.len() implies #[trigger] events[k].subject().id
        != known[at].id by {
        lemma_event_origin(known, snapshot, config, k);
        match events[k] {
            EventView::Gone(container) => {
                let from = choose|from: int| 0 <= from < known.len() && known[from] == container;
                if from != at {
                    assert(known[from].id != known[at].id);
                }
            },
            event => {
                let seen = choose|seen: int|
                    0 <= seen < snapshot.len() && !knows(known, snapshot[seen].id) && event
                        == classify(
                        derived(snapshot[seen], config.network, config.label_key),
                        config.target,
                        active_participants(known, snapshot),
                    );
                lemma_classification(
                    derived(snapshot[seen], config.network, config.label_key),
                    config.target,
                    active_participants(known, snapshot),
                );
                assert(known_at(known, known[at].id, at));
            },
        }
    }
    let k = lemma_filter_target(known, still_reported(snapshot), at);
    assert(reconcile_known(known, snapshot, config)[k] == known[at]);
}

/// The participants that a `Target` event holds are the containers that were
/// retained before the poll, are still reported, carry the label and have an
/// address: those and no others, in the order in which they were retained.
pub proof fn lemma_target_fan_out(
    known: Seq<ContainerView>,
    snapshot: Seq<RawView>,
    config: ConfigView,
    k: int,
)
    requires
        0 <= k < reconcile_events(known, snapshot, config).len(),
    ensures
        reconcile_events(known, snapshot, config)[k] matches EventView::Target(_, active, _)
            ==> active == known.filter(still_reported(snapshot)).filter(participating()),
        forall|container: ContainerView|
            active_participants(known, snapshot).contains(container) <==> known.contains(
                container,
            ) && reports(snapshot, container.id) && participates(container),
{
    lemma_event_origin(known, snapshot, config, k);
    let stay = survivors(known, snapshot);
    let active = active_participants(known, snapshot);
    assert forall|container: ContainerView| active.contains(container) <==> known.contains(
        container,
    ) && reports(snapshot, container.id) && participates(container) by {
        if active.contains(container) {
            let at = choose|at: int| 0 <= at < active.len() && active[at] == container;
            let middle = lemma_filter_source(stay, participating(), at);
            let from = lemma_filter_source(known, still_reported(snapshot), middle);
        }
        if known.contains(container) && reports(snapshot, container.id) && participates(
            container,
        ) {
            let from = choose|from: int| 0 <= from < known.len() && known[from] == container;
            let middle = lemma_filter_target(known, still_reported(snapshot), from);
            let at = lemma_filter_target(stay, participating(), middle);
        }
    }
    match reconcile_events(known, snapshot, config)[k] {
        EventView::Target(_, participants, _) => {
            let seen = choose|seen: int|
                0 <= seen < snapshot.len() && !knows(known, snapshot[seen].id)
                    && reconcile_events(known, snapshot, config)[k] == classify(
                    derived(snapshot[seen], config.network, config.label_key),
                    config.target,
                    active,
                );
            lemma_classification(
                derived(snapshot[seen], config.network, config.label_key),
                config.target,
                active,
            );
        },
        _ => {},
    }
}

} // verus!
