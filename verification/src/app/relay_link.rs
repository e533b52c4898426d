//! The connection to the relay, step by step: the doors are tried in order until one opens, a lost connection
//! is made again, and between two rounds there is a wait that grows.
use crate::app::ticker::{self, RelayBackoff};
use crate::text;
use vstd::prelude::*;

verus! {

/// What has happened to the connection.
pub enum LinkEvent {
    Started,
    /// These doors can be used, in this order.
    Doors(Vec<String>),
    /// The door that was tried let us in.
    Opened,
    /// The door that was tried stayed shut, or did not answer in time.
    Shut,
    /// The connection that we had is gone, or is given up for another order of the doors.
    Lost,
    /// The wait is over, or a change of the order of the doors cut it short (`woken`).
    Waited { woken: bool },
}

/// What is to be done next.
#[derive(Debug, Clone, PartialEq, Eq)]
pub enum LinkAction {
    /// Say which doors can be used now.
    LookForDoors,
    TryDoor(String),
    /// Take what comes through this door until the connection is lost.
    Serve(String),
    Wait { secs: u64 },
    /// Nothing more: we are shutting down.
    Stop,
}

pub enum LinkEventView {
    Started,
    Doors(Seq<Seq<char>>),
    Opened,
    Shut,
    Lost,
    Waited { woken: bool },
}

pub enum LinkActionView {
    LookForDoors,
    TryDoor(Seq<char>),
    Serve(Seq<char>),
    Wait { secs: nat },
    Stop,
}

impl View for LinkEvent {
    type V = LinkEventView;

    open spec fn view(&self) -> LinkEventView {
        match self {
            LinkEvent::Started => LinkEventView::Started,
            LinkEvent::Doors(d) => LinkEventView::Doors(text::texts(d@)),
            LinkEvent::Opened => LinkEventView::Opened,
            LinkEvent::Shut => LinkEventView::Shut,
            LinkEvent::Lost => LinkEventView::Lost,
            LinkEvent::Waited { woken } => LinkEventView::Waited { woken: *woken },
        }
    }
}

impl View for LinkAction {
    type V = LinkActionView;

    open spec fn view(&self) -> LinkActionView {
        match self {
            LinkAction::LookForDoors => LinkActionView::LookForDoors,
            LinkAction::TryDoor(d) => LinkActionView::TryDoor(d@),
            LinkAction::Serve(d) => LinkActionView::Serve(d@),
            LinkAction::Wait { secs } => LinkActionView::Wait { secs: *secs as nat },
            LinkAction::Stop => LinkActionView::Stop,
        }
    }
}

/// Where the connection stands.
pub struct RelayLink {
    backoff: RelayBackoff,
    /// The doors from the one that is tried on, the last one first.
    doors: Vec<String>,
}

pub struct LinkView {
    /// How many seconds the next wait takes.
    pub backoff: nat,
    /// The doors from the one that is tried on.
    pub doors: Seq<Seq<char>>,
}

impl View for RelayLink {
    type V = LinkView;

    closed spec fn view(&self) -> LinkView {
        LinkView { backoff: self.backoff@, doors: text::texts(self.doors@).reverse() }
    }
}

impl LinkView {
    /// A round is over. Whoever shuts down does not wait for the next one.
    pub open spec fn rest(self, stopping: bool) -> LinkActionView {
        if stopping {
            LinkActionView::Stop
        } else {
            LinkActionView::Wait { secs: self.backoff }
        }
    }

    /// A round begins, unless we are shutting down.
    pub open spec fn round(stopping: bool) -> LinkActionView {
        if stopping {
            LinkActionView::Stop
        } else {
            LinkActionView::LookForDoors
        }
    }

    /// With these doors still to try: the first of them is next, and without one the round is over.
    pub open spec fn trying(self, doors: Seq<Seq<char>>, stopping: bool) -> (Self, LinkActionView) {
        let next = LinkView { doors, ..self };
        if doors.len() > 0 {
            (next, LinkActionView::TryDoor(doors[0]))
        } else {
            (next, next.rest(stopping))
        }
    }

    pub open spec fn stepped(self, event: LinkEventView, stopping: bool) -> (Self, LinkActionView) {
        match event {
            LinkEventView::Started => (self, Self::round(stopping)),
            LinkEventView::Doors(doors) => self.trying(doors, stopping),
            LinkEventView::Opened => if self.doors.len() > 0 {
                (
                    LinkView { backoff: 1, doors: Seq::empty() },
                    LinkActionView::Serve(self.doors[0]),
                )
            } else {
                (self, self.rest(stopping))
            },
            LinkEventView::Shut => self.trying(
                if self.doors.len() > 0 {
                    self.doors.skip(1)
                } else {
                    self.doors
                },
                stopping,
            ),
            LinkEventView::Lost => (self, self.rest(stopping)),
            LinkEventView::Waited { woken } => (
                LinkView {
                    backoff: ticker::longer(
                        if woken {
                            1
                        } else {
                            self.backoff
                        },
                    ),
                    ..self
                },
                Self::round(stopping),
            ),
        }
    }
}

impl RelayLink {
    pub fn new() -> (r: Self)
        ensures
            r@ == (LinkView { backoff: 1, doors: Seq::empty() }),
    {
        let r = RelayLink { backoff: RelayBackoff::new(), doors: Vec::new() };
        assert(r@.doors =~= Seq::empty());
        r
    }

    fn rest(&self, stopping: bool) -> (r: LinkAction)
        ensures
            r@ == self@.rest(stopping),
    {
        if stopping {
            LinkAction::Stop
        } else {
            LinkAction::Wait { secs: self.backoff.delay_secs() }
        }
    }

    fn round(stopping: bool) -> (r: LinkAction)
        ensures
            r@ == LinkView::round(stopping),
    {
        if stopping {
            LinkAction::Stop
        } else {
            LinkAction::LookForDoors
        }
    }

    fn next_door(&self, stopping: bool) -> (r: LinkAction)
        ensures
            (self@, r@) == self@.trying(self@.doors, stopping),
    {
        let n: usize = self.doors.len();
        if n > 0 {
            assert(self@.doors[0] == self.doors@[n - 1]@);
            LinkAction::TryDoor(self.doors[n - 1].clone())
        } else {
            self.rest(stopping)
        }
    }

    /// Takes in what happened, and says what to do next.
    pub fn step(&mut self, event: LinkEvent, stopping: bool) -> (r: LinkAction)
        ensures
            (final(self)@, r@) == old(self)@.stepped(event@, stopping),
    {
        let ghost before = self@;
        match event {
            LinkEvent::Started => Self::round(stopping),
            LinkEvent::Doors(doors) => {
                let ghost all = text::texts(doors@);
                let mut left: Vec<String> = doors;
                let mut turned: Vec<String> = Vec::new();
                assert(all.take(left@.len() as int) =~= text::texts(left@));
                assert(all.skip(left@.len() as int).reverse() =~= text::texts(turned@));
                while left.len() > 0
                    invariant
                        left@.len() <= all.len(),
                        text::texts(left@) == all.take(left@.len() as int),
                        text::texts(turned@) == all.skip(left@.len() as int).reverse(),
                    decreases left@.len(),
                {
                    let ghost had = left@;
                    let ghost got = turned@;
                    match left.pop() {
                        Some(door) => {
                            turned.push(door);
                            proof {
                                let n = left@.len() as int;
                                assert(text::texts(had)[n] == door@);
                                assert(text::texts(left@) =~= all.take(n));
                                assert(text::texts(turned@) =~= text::texts(got).push(all[n]));
                                assert(text::texts(turned@) =~= all.skip(n).reverse());
                            }
                        },
                        None => {},
                    }
                }
                self.doors = turned;
                proof {
                    assert(all.skip(0) =~= all);
                    assert(self@.doors =~= all);
                    assert(self@ == (LinkView { doors: all, ..before }));
                }
                self.next_door(stopping)
            },
            LinkEvent::Opened => {
                let ghost had = self.doors@;
                match self.doors.pop() {
                    Some(door) => {
                        assert(before.doors[0] == had[had.len() - 1]@);
                        self.backoff.connected();
                        self.doors = Vec::new();
                        assert(self@.doors =~= Seq::empty());
                        LinkAction::Serve(door)
                    },
                    None => {
                        assert(self.doors@ =~= had);
                        self.rest(stopping)
                    },
                }
            },
            LinkEvent::Shut => {
                let ghost had = self.doors@;
                let _tried: Option<String> = self.doors.pop();
                proof {
                    if had.len() > 0 {
                        assert(self@.doors =~= before.doors.skip(1));
                    } else {
                        assert(self@.doors =~= before.doors);
                    }
                }
                self.next_door(stopping)
            },
            LinkEvent::Lost => self.rest(stopping),
            LinkEvent::Waited { woken } => {
                self.backoff.waited(woken);
                Self::round(stopping)
            },
        }
    }
}

// ---------------------------------------------------------------------------------------------
// Laws
// ---------------------------------------------------------------------------------------------

/// A round of these doors after so many of them stayed shut.
pub open spec fn after_shut(link: LinkView, doors: Seq<Seq<char>>, shut: nat) -> (
    LinkView,
    LinkActionView,
)
    decreases shut,
{
    if shut == 0 {
        link.stepped(LinkEventView::Doors(doors), false)
    } else {
        after_shut(link, doors, (shut - 1) as nat).0.stepped(LinkEventView::Shut, false)
    }
}

/// Every door is tried, in order, as long as the ones before it stay shut; the first that opens is served;
/// and where none opens there is a wait.
pub proof fn law_doors_are_tried_in_order(link: LinkView, doors: Seq<Seq<char>>, shut: nat)
    requires
        shut <= doors.len(),
    ensures
        shut < doors.len() ==> after_shut(link, doors, shut).1 == LinkActionView::TryDoor(
            doors[shut as int],
        ),
        shut < doors.len() ==> after_shut(link, doors, shut).0.stepped(
            LinkEventView::Opened,
            false,
        ).1 == LinkActionView::Serve(doors[shut as int]),
        shut == doors.len() ==> after_shut(link, doors, shut).1 == (LinkActionView::Wait {
            secs: link.backoff,
        }),
{
    lemma_doors_left(link, doors, shut);
}

proof fn lemma_doors_left(link: LinkView, doors: Seq<Seq<char>>, shut: nat)
    requires
        shut <= doors.len(),
    ensures
        after_shut(link, doors, shut) == link.trying(doors.skip(shut as int), false),
    decreases shut,
{
    if shut == 0 {
        assert(doors.skip(0) =~= doors);
    } else {
        lemma_doors_left(link, doors, (shut - 1) as nat);
        assert(doors.skip(shut - 1).skip(1) =~= doors.skip(shut as int));
    }
}

/// Whoever shuts down begins no round and no wait: once a connection is lost, a wait is over or no door is
/// left, nothing more is done.
pub proof fn law_shutting_down_ends_the_rounds(link: LinkView, event: LinkEventView)
    ensures
        link.stepped(event, true).1 is Stop || link.stepped(event, true).1 is TryDoor || link.stepped(
            event,
            true,
        ).1 is Serve,
        event is Started || event is Lost || event is Waited ==> link.stepped(event, true).1 is Stop,
        event is Shut && link.doors.len() <= 1 ==> link.stepped(event, true).1 is Stop,
{
}

/// The waits grow from one second to half a minute and no further, and begin anew with a door that opened.
pub proof fn law_waits_stay_within_half_a_minute(
    link: LinkView,
    event: LinkEventView,
    stopping: bool,
)
    requires
        1 <= link.backoff <= 30,
    ensures
        1 <= link.stepped(event, stopping).0.backoff <= 30,
        link.stepped(event, stopping).1 matches LinkActionView::Wait { secs } ==> secs
            == link.backoff,
        event is Opened && link.doors.len() > 0 ==> link.stepped(event, stopping).0.backoff == 1,
{
}

} // verus!
