//! One cycle: poll, take the poll in, carry out what the events call for.
//! The runtime is reached through the [`Docker`] trait.

use vstd::prelude::*;
use crate::container::{ConfigView, Container, RawView};
use crate::error::{PatchError, TickError};
use crate::event::{event_views, headline, StackEvents};
use crate::hosts::texts;
use crate::patch::HostsPatch;
use crate::reconcile::{reconcile_events, reconcile_known, EventView};
use crate::snapshot::{reported_once, Snapshot};
use crate::stack::{requests, settled, CurrentStack, StackView};

verus! {

/// The container runtime, as a cycle needs it.
pub trait Docker {
    /// Reports every container that exists. A report has to be complete: a
    /// container that it leaves out counts as gone.
    fn poll(&mut self) -> (polled: Result<Snapshot, String>);

    /// Rewrites the hosts file of `container` so that each of `dependencies`
    /// resolves to `host`, in the block of `network` and `target`.
    fn update_hosts_for(
        &self,
        container: Container,
        dependencies: &[String],
        network: &str,
        target: &str,
        host: &str,
    ) -> (done: Result<(), PatchError>);
}

/// The address on record once the events have been settled one after the
/// other.
pub open spec fn settled_all(target_ip: Option<Seq<char>>, events: Seq<EventView>) -> Option<
    Seq<char>,
>
    decreases events.len(),
{
    if events.len() == 0 {
        target_ip
    } else {
        settled(settled_all(target_ip, events.drop_last()), events.last())
    }
}

/// The lines that tell of the events, one for each.
pub open spec fn headlines(events: Seq<EventView>) -> Seq<Seq<char>> {
    events.map_values(|event: EventView| headline(event))
}

/// An address on record stays on record over any run of events.
pub proof fn lemma_target_ip_stays(target_ip: Option<Seq<char>>, events: Seq<EventView>)
    requires
        target_ip is Some,
    ensures
        settled_all(target_ip, events) is Some,
    decreases events.len(),
{
    if events.len() > 0 {
        lemma_target_ip_stays(target_ip, events.drop_last());
    }
}

/// What a run of events leaves behind when the first `done` of them were
/// carried out in full and, unless that is all of them, the next one was told
/// of and then failed.
pub open spec fn carried_out(
    before: Option<Seq<char>>,
    lines: Seq<Seq<char>>,
    events: Seq<EventView>,
    done: int,
    after: Option<Seq<char>>,
    told: Seq<Seq<char>>,
) -> bool {
    &&& 0 <= done <= events.len()
    &&& after == settled_all(before, events.take(done))
    &&& told == lines + headlines(
        events.take(
            if done < events.len() {
                done + 1
            } else {
                done
            },
        ),
    )
}

/// The event at `at` calls for at least one request, with the address that
/// is on record once the events before it have been settled.
pub open spec fn calls_for_request(
    config: ConfigView,
    before: Option<Seq<char>>,
    events: Seq<EventView>,
    at: int,
) -> bool {
    &&& 0 <= at < events.len()
    &&& requests(config, settled_all(before, events.take(at)), events[at]).len() > 0
}

fn carry_out<D: Docker>(docker: &D, patch: &HostsPatch) -> (done: Result<(), PatchError>) {
    docker.update_hosts_for(
        patch.container.clone(),
        patch.dependencies.as_slice(),
        patch.network.as_str(),
        patch.target.as_str(),
        patch.host.as_str(),
    )
}

impl CurrentStack {
    /// Carries out what `events` call for, in order: tells of each event in
    /// `log`, hands its requests to `docker` one after the other and settles
    /// it. The first request that fails ends the run: the event it belongs to
    /// is not settled and no later event is looked at.
    ///
    /// The retained containers are not touched. On success every event has
    /// been told of and settled. On failure the events before the one that
    /// failed have been settled, that one has been told of, and it called
    /// for at least one request: a run of events that call for none cannot
    /// fail.
    pub fn dispatch<D: Docker>(
        &mut self,
        docker: &D,
        events: &Vec<StackEvents>,
        log: &mut Vec<String>,
    ) -> (outcome: Result<(), PatchError>)
        ensures
            final(self)@.config == old(self)@.config,
            final(self)@.known == old(self)@.known,
            outcome is Ok ==> carried_out(
                old(self)@.target_ip,
                texts(old(log)@),
                event_views(events@),
                events@.len() as int,
                final(self)@.target_ip,
                texts(final(log)@),
            ),
            outcome is Err ==> exists|done: int|
                #[trigger] carried_out(
                    old(self)@.target_ip,
                    texts(old(log)@),
                    event_views(events@),
                    done,
                    final(self)@.target_ip,
                    texts(final(log)@),
                ) && calls_for_request(
                    old(self)@.config,
                    old(self)@.target_ip,
                    event_views(events@),
                    done,
                ),
            (forall|at: int|
                !calls_for_request(
                    old(self)@.config,
                    old(self)@.target_ip,
                    event_views(events@),
                    at,
                )) ==> outcome is Ok,
    {
        let ghost before = self@.target_ip;
        let ghost lines = texts(log@);
        let ghost all = event_views(events@);
        let mut at: usize = 0;
        assert(all.take(0) =~= Seq::<EventView>::empty());
        assert(lines + headlines(all.take(0)) =~= lines);
        while at < events.len()
            invariant
                at <= events.len(),
                all == event_views(events@),
                before == old(self)@.target_ip,
                lines == texts(old(log)@),
                self@.config == old(self)@.config,
                self@.known == old(self)@.known,
                self@.target_ip == settled_all(before, all.take(at as int)),
                texts(log@) == lines + headlines(all.take(at as int)),
            decreases events.len() - at,
        {
            let event = &events[at];
            proof {
                assert(all.take(at + 1).drop_last() =~= all.take(at as int));
                assert(all.take(at + 1).last() == event@);
                assert(headlines(all.take(at + 1)) =~= headlines(all.take(at as int)).push(
                    headline(event@),
                ));
            }
            let line = event.to_string();
            assert(texts(log@.push(line)) =~= texts(log@).push(line@));
            log.push(line);
            let patches = self.requests_for(event);
            let ghost asked = requests(self@.config, self@.target_ip, event@);
            let mut next: usize = 0;
            while next < patches.len()
                invariant
                    next <= patches.len(),
                    patches@.len() == asked.len(),
                    asked == requests(old(self)@.config, self@.target_ip, all[at as int]),
                    at < events.len(),
                    all == event_views(events@),
                    before == old(self)@.target_ip,
                    lines == texts(old(log)@),
                    self@.config == old(self)@.config,
                    self@.known == old(self)@.known,
                    self@.target_ip == settled_all(before, all.take(at as int)),
                    texts(log@) == lines + headlines(all.take(at + 1)),
                decreases patches.len() - next,
            {
                match carry_out(docker, &patches[next]) {
                    Ok(_) => {},
                    Err(error) => {
                        assert(carried_out(
                            before,
                            lines,
                            all,
                            at as int,
                            self@.target_ip,
                            texts(log@),
                        ));
                        assert(calls_for_request(old(self)@.config, before, all, at as int));
                        return Err(error);
                    },
                }
                next += 1;
            }
            self.settle(event);
            at += 1;
        }
        Ok(())
    }

    /// What a cycle does with the outcome of its poll. A poll that failed
    /// changes nothing, and its reason is handed on. A poll that succeeded is
    /// taken in, whatever happens afterwards, and its events are dispatched:
    /// `cycle_ran` says what that leaves behind.
    ///
    /// Taking the poll in comes first, so a patch that fails leaves the
    /// containers of the poll retained: the next cycle does not see them as
    /// new, and makes up for the lost patch only when a target is seen for
    /// the first time again.
    pub fn tick<D: Docker>(
        &mut self,
        docker: &D,
        polled: Result<Snapshot, String>,
        log: &mut Vec<String>,
    ) -> (outcome: Result<(), TickError>)
        ensures
            final(self)@.config == old(self)@.config,
            match polled {
                Err(reason) => {
                    &&& outcome matches Err(TickError::Poll(said))
                    &&& said@ == reason@
                    &&& final(self)@ == old(self)@
                    &&& final(log)@ == old(log)@
                },
                Ok(snapshot) => {
                    &&& !(outcome matches Err(TickError::Poll(_)))
                    &&& reported_once(snapshot@)
                    &&& cycle_ran(
                        old(self)@,
                        texts(old(log)@),
                        snapshot@,
                        outcome is Ok,
                        final(self)@,
                        texts(final(log)@),
                    )
                },
            },
    {
        match polled {
            Err(reason) => Err(TickError::Poll(reason)),
            Ok(snapshot) => {
                let ghost before = self@.target_ip;
                let ghost lines = texts(log@);
                let ghost expected = reconcile_events(self@.known, snapshot@, self@.config);
                let events = self.actualize(snapshot);
                match self.dispatch(docker, &events, log) {
                    Ok(_) => {
                        assert(carried_out(
                            before,
                            lines,
                            expected,
                            expected.len() as int,
                            self@.target_ip,
                            texts(log@),
                        ));
                        Ok(())
                    },
                    Err(error) => Err(TickError::Patch(error)),
                }
            },
        }
    }

    /// One cycle: polls `docker` and does with the outcome what `tick` says.
    /// A poll that fails changes nothing. Otherwise the runtime has given a
    /// snapshot, which is taken in and whose events are dispatched, as
    /// `cycle_ran` says of that snapshot. Whatever the runtime answers, an
    /// address on record is not lost.
    pub fn loop_once<D: Docker>(&mut self, docker: &mut D, log: &mut Vec<String>) -> (outcome:
        Result<(), TickError>)
        ensures
            final(self)@.config == old(self)@.config,
            old(self)@.target_ip is Some ==> final(self)@.target_ip is Some,
            match outcome {
                Err(TickError::Poll(_)) => final(self)@ == old(self)@ && final(log)@ == old(log)@,
                _ => exists|snapshot: Seq<RawView>|
                    reported_once(snapshot) && #[trigger] cycle_ran(
                        old(self)@,
                        texts(old(log)@),
                        snapshot,
                        outcome is Ok,
                        final(self)@,
                        texts(final(log)@),
                    ),
            },
    {
        let polled = docker.poll();
        let ghost before = self@;
        let ghost lines = texts(log@);
        let ghost snapshot = if polled is Ok {
            polled->Ok_0@
        } else {
            Seq::empty()
        };
        let ghost failed = polled is Err;
        let outcome = self.tick(&*docker, polled, log);
        proof {
            if !failed {
                assert(reported_once(snapshot));
                assert(cycle_ran(before, lines, snapshot, outcome is Ok, self@, texts(log@)));
                if before.target_ip is Some {
                    let events = reconcile_events(before.known, snapshot, before.config);
                    let done = choose|done: int|
                        #[trigger] carried_out(
                            before.target_ip,
                            lines,
                            events,
                            done,
                            self@.target_ip,
                            texts(log@),
                        ) && (outcome is Ok <==> done == events.len()) && (!(outcome is Ok)
                            ==> calls_for_request(before.config, before.target_ip, events, done));
                    lemma_target_ip_stays(before.target_ip, events.take(done));
                }
            }
        }
        outcome
    }
}

/// What a cycle leaves behind that took in `snapshot`: the containers that
/// are retained after the poll, and what dispatching the events of the poll
/// did to the address on record and to the lines told. The cycle succeeded
/// when every event was carried out; when it did not, the event that it
/// stopped at called for a request.
pub open spec fn cycle_ran(
    before: StackView,
    lines: Seq<Seq<char>>,
    snapshot: Seq<RawView>,
    succeeded: bool,
    after: StackView,
    told: Seq<Seq<char>>,
) -> bool {
    let events = reconcile_events(before.known, snapshot, before.config);
    &&& after.config == before.config
    &&& after.known == reconcile_known(before.known, snapshot, before.config)
    &&& exists|done: int|
        #[trigger] carried_out(before.target_ip, lines, events, done, after.target_ip, told) && (
        succeeded <==> done == events.len()) && (!succeeded ==> calls_for_request(
            before.config,
            before.target_ip,
            events,
            done,
        ))
}

} // verus!
