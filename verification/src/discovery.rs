//! Device discovery decisions.
//!
//! Discovery itself (scanning, adapter events) happens outside the
//! library; what is decided here is what to do with each event: which
//! discovered device matches the caller's target, and how the list of
//! known peripherals changes as devices appear, connect and disconnect.
//! Peripherals are tracked by stable numeric handles that the caller
//! assigns; the caller keeps the mapping from handle to live connection.

use vstd::prelude::*;

verus! {

use crate::options::Args;

/// One adapter event, reduced to what the decision needs.
pub enum DiscoveryEvent {
    /// A device was discovered.
    Discovered {
        /// The caller's handle for the device.
        id: u64,
    },
    /// A known device's advertisement was updated.
    Updated {
        /// The caller's handle for the device.
        id: u64,
    },
    /// A device connected.
    Connected {
        /// The caller's handle for the device.
        id: u64,
    },
    /// A device disconnected.
    Disconnected {
        /// The caller's handle for the device.
        id: u64,
    },
    /// Any advertisement-only event; logged by the caller, no decision.
    Advertisement,
}

/// What the caller should announce after an event.
#[derive(Clone, Copy, PartialEq, Eq, Structural, Debug)]
pub enum DiscoveryAction {
    /// Announce the updated list of discovered devices.
    AnnounceDiscovered,
    /// Announce that a device connected.
    AnnounceConnected,
    /// Nothing to announce.
    Ignore,
}

/// The set of discovered, not yet connected peripherals, in discovery
/// order, each id held at most once.
pub struct Registry {
    ids: Vec<u64>,
}

impl View for Registry {
    type V = Seq<u64>;

    closed spec fn view(&self) -> Seq<u64> {
        self.ids@
    }
}

impl Registry {
    /// No id occurs twice.
    pub open spec fn wf(self) -> bool {
        forall|i: int, j: int| 0 <= i < j < self@.len() ==> self@[i] != self@[j]
    }

    /// An empty registry.
    pub fn new() -> (registry: Self)
        ensures
            registry@ == Seq::<u64>::empty(),
            registry.wf(),
    {
        Registry { ids: Vec::new() }
    }

    /// Number of tracked peripherals.
    pub fn len(&self) -> (n: usize)
        ensures
            n == self@.len(),
    {
        self.ids.len()
    }

    /// The tracked id at one position.
    pub fn id_at(&self, index: usize) -> (id: u64)
        requires
            index < self@.len(),
        ensures
            id == self@[index as int],
    {
        self.ids[index]
    }

    /// Whether an id is tracked.
    pub fn contains(&self, id: u64) -> (tracked_here: bool)
        ensures
            tracked_here == self@.contains(id),
    {
        let n: usize = self.ids.len();
        let mut i: usize = 0;
        while i < n
            invariant
                i <= n,
                n == self@.len(),
                forall|k: int| 0 <= k < i ==> self@[k] != id,
            decreases n - i,
        {
            if self.ids[i] == id {
                return true;
            }
            i = i + 1;
        }
        false
    }

    /// Drop an id, keeping the order of the rest.
    fn remove(&mut self, id: u64)
        requires
            old(self).wf(),
        ensures
            final(self).wf(),
            !final(self)@.contains(id),
            forall|x: u64| x != id ==> (final(self)@.contains(x) <==> old(self)@.contains(x)),
            old(self)@.contains(id) ==> final(self)@.len() == old(self)@.len() - 1,
            !old(self)@.contains(id) ==> final(self)@ == old(self)@,
    {
        let n: usize = self.ids.len();
        let mut i: usize = 0;
        while i < n
            invariant
                i <= n,
                n == self@.len(),
                old(self) == self,
                old(self).wf(),
                forall|k: int| 0 <= k < i ==> self@[k] != id,
            decreases n - i,
        {
            if self.ids[i] == id {
                self.ids.remove(i);
                proof {
                    let before = old(self)@;
                    let after = self@;
                    assert(after =~= before.subrange(0, i as int) + before.subrange(
                        i + 1,
                        before.len() as int,
                    ));
                    assert forall|x: u64| x != id implies (after.contains(x)
                        <==> before.contains(x)) by {
                        if after.contains(x) {
                            let k = choose|k: int| 0 <= k < after.len() && after[k] == x;
                            if k < i {
                                assert(before[k] == x);
                            } else {
                                assert(before[k + 1] == x);
                            }
                        }
                        if before.contains(x) {
                            let k = choose|k: int| 0 <= k < before.len() && before[k] == x;
                            if k < i {
                                assert(after[k] == x);
                            } else {
                                assert(k != i);
                                assert(after[k - 1] == x);
                            }
                        }
                    }
                    assert(!after.contains(id)) by {
                        if after.contains(id) {
                            let k = choose|k: int| 0 <= k < after.len() && after[k] == id;
                            if k < i {
                                assert(before[k] == id);
                            } else {
                                assert(before[k + 1] == id);
                                assert(i < k + 1 < before.len());
                                assert(before[i as int] != before[k + 1]);
                            }
                        }
                    }
                    assert(before.contains(id)) by {
                        assert(before[i as int] == id);
                    }
                    assert forall|a: int, b: int| 0 <= a < b < after.len() implies after[a]
                        != after[b] by {
                        let a0: int = if a < i { a } else { a + 1 };
                        let b0: int = if b < i { b } else { b + 1 };
                        assert(after[a] == before[a0]);
                        assert(after[b] == before[b0]);
                        assert(before[a0] != before[b0]);
                    }
                }
                return;
            }
            i = i + 1;
        }
        proof {
            assert(!self@.contains(id)) by {
                if self@.contains(id) {
                    let k = choose|k: int| 0 <= k < self@.len() && self@[k] == id;
                    assert(self@[k] != id);
                }
            }
        }
    }

    /// React to one adapter event, as the discovery loop does: a device
    /// seen for the first time is tracked and announced; a connection
    /// announces the device, stops tracking it, and ends the search; a
    /// disconnection stops tracking it.
    pub fn handle_event(&mut self, event: &DiscoveryEvent) -> (outcome: (DiscoveryAction, bool))
        requires
            old(self).wf(),
        ensures
            final(self).wf(),
            match *event {
                DiscoveryEvent::Discovered { id } | DiscoveryEvent::Updated { id } => {
                    &&& outcome.1 == false
                    &&& if old(self)@.contains(id) {
                        final(self)@ == old(self)@ && outcome.0 == DiscoveryAction::Ignore
                    } else {
                        final(self)@ == old(self)@.push(id) && outcome.0
                            == DiscoveryAction::AnnounceDiscovered
                    }
                },
                DiscoveryEvent::Connected { id } => {
                    &&& outcome == (DiscoveryAction::AnnounceConnected, true)
                    &&& !final(self)@.contains(id)
                    &&& forall|x: u64| x != id ==> (final(self)@.contains(x) <==> old(
                        self,
                    )@.contains(x))
                },
                DiscoveryEvent::Disconnected { id } => {
                    &&& outcome == (DiscoveryAction::Ignore, false)
                    &&& !final(self)@.contains(id)
                    &&& forall|x: u64| x != id ==> (final(self)@.contains(x) <==> old(
                        self,
                    )@.contains(x))
                },
                DiscoveryEvent::Advertisement => {
                    final(self)@ == old(self)@ && outcome == (DiscoveryAction::Ignore, false)
                },
            },
    {
        match event {
            DiscoveryEvent::Discovered { id } | DiscoveryEvent::Updated { id } => {
                if self.contains(*id) {
                    (DiscoveryAction::Ignore, false)
                } else {
                    self.ids.push(*id);
                    (DiscoveryAction::AnnounceDiscovered, false)
                }
            },
            DiscoveryEvent::Connected { id } => {
                self.remove(*id);
                (DiscoveryAction::AnnounceConnected, true)
            },
            DiscoveryEvent::Disconnected { id } => {
                self.remove(*id);
                (DiscoveryAction::Ignore, false)
            },
            DiscoveryEvent::Advertisement => (DiscoveryAction::Ignore, false),
        }
    }
}

/// Whether a discovered device should be connected to, by the caller's
/// target options: a pinned id must match the device's id; otherwise a
/// pinned name must match the advertised name (an absent name counts as
/// empty); with nothing pinned, the first discovered device is taken
/// once.
pub open spec fn spec_should_connect(
    pinned_id: Option<Seq<char>>,
    pinned_name: Option<Seq<char>>,
    id: Seq<char>,
    name: Option<Seq<char>>,
    connected_to_first: bool,
) -> bool {
    match pinned_id {
        Some(target) => id == target,
        None => match pinned_name {
            Some(target) => (match name {
                Some(n) => n,
                None => Seq::empty(),
            }) == target,
            None => !connected_to_first,
        },
    }
}

/// Decide whether to connect to a discovered device, from the caller's
/// options, the device's id and advertised name, and whether a first
/// device was already taken.
pub fn should_connect(
    args: &Args,
    id: &String,
    name: Option<&String>,
    connected_to_first: bool,
) -> (connect: bool)
    ensures
        connect == spec_should_connect(
            match args.peripheral_id {
                Some(ref t) => Some(t@),
                None => None,
            },
            match args.peripheral_name {
                Some(ref t) => Some(t@),
                None => None,
            },
            id@,
            match name {
                Some(n) => Some(n@),
                None => None,
            },
            connected_to_first,
        ),
{
    match &args.peripheral_id {
        Some(target) => id.eq(target),
        None => {
            match &args.peripheral_name {
                Some(target) => {
                    match name {
                        Some(n) => n.eq(target),
                        None => {
                            let empty_name = target.as_str().is_empty();
                            proof {
                                if empty_name {
                                    assert(Seq::<char>::empty() =~= target@);
                                }
                            }
                            empty_name
                        },
                    }
                },
                None => !connected_to_first,
            }
        },
    }
}

} // verus!
