//! The connections that a share is served over, until each of them has ended.
use vstd::prelude::*;

use crate::share::identity::EndpointId;

verus! {

/// A connection and the device at its other end.
#[derive(Clone, Copy, Debug, PartialEq, Eq)]
pub struct Link {
    pub id: u64,
    pub peer: EndpointId,
}

/// The connections of a share.
pub struct Connections {
    pub links: Vec<Link>,
    /// The number that the next connection gets.
    pub next: u64,
}

/// A connection is one of a device, or of any device.
pub open spec fn concerns(connection: Link, peer: Option<EndpointId>) -> bool {
    peer is None || peer == Some(connection.peer)
}

/// The numbers of the connections of a device, or of all, in the order in which they came.
pub open spec fn numbers_of(links: Seq<Link>, peer: Option<EndpointId>) -> Seq<u64> {
    links.filter(|connection: Link| concerns(connection, peer)).map_values(
        |connection: Link| connection.id,
    )
}

fn is_of(connection: &Link, peer: Option<EndpointId>) -> (of: bool)
    ensures
        of == concerns(*connection, peer),
{
    match peer {
        Some(peer) => connection.peer == peer,
        None => true,
    }
}

impl Connections {
    /// No number is given twice.
    pub open spec fn wf(&self) -> bool {
        &&& forall|i: int| 0 <= i < self.links@.len() ==> (#[trigger] self.links@[i]).id < self.next
        &&& forall|i: int, j: int|
            0 <= i < j < self.links@.len()
                ==> (#[trigger] self.links@[i]).id != (#[trigger] self.links@[j]).id
    }

    /// No connections.
    pub fn new() -> (connections: Self)
        ensures
            connections.wf(),
            connections.links@ == Seq::<Link>::empty(),
            connections.next == 1,
    {
        Connections { links: Vec::new(), next: 1 }
    }

    /// Takes note of a connection, and gives it a number.
    pub fn track(&mut self, peer: EndpointId) -> (id: u64)
        requires
            old(self).wf(),
            old(self).next < u64::MAX,
        ensures
            final(self).wf(),
            id == old(self).next,
            final(self).links@ == old(self).links@.push(Link { id, peer }),
            final(self).next == old(self).next + 1,
    {
        let id = self.next;
        self.links.push(Link { id, peer });
        self.next = id + 1;
        id
    }

    /// Takes note that a connection has ended.
    pub fn ended(&mut self, id: u64)
        requires
            old(self).wf(),
        ensures
            final(self).wf(),
            final(self).links@ == old(self).links@.filter(|connection: Link| connection.id != id),
            final(self).next == old(self).next,
    {
        let ghost keeps = |connection: Link| connection.id != id;
        let ghost before = self.links@;
        let mut i: usize = 0;
        while i < self.links.len() && self.links[i].id != id
            invariant
                i <= self.links@.len(),
                forall|k: int| 0 <= k < i ==> (#[trigger] self.links@[k]).id != id,
            decreases self.links@.len() - i,
        {
            i = i + 1;
        }
        if i < self.links.len() {
            self.links.remove(i);
            proof {
                lemma_filter_one(before, id, i as int);
            }
        } else {
            proof {
                lemma_filter_all(before, keeps);
            }
        }
    }

    /// The numbers of the connections of a device, or of all.
    pub fn of(&self, peer: Option<EndpointId>) -> (ids: Vec<u64>)
        ensures
            ids@ == numbers_of(self.links@, peer),
    {
        let ghost wanted = |connection: Link| concerns(connection, peer);
        let mut ids: Vec<u64> = Vec::new();
        let mut i: usize = 0;
        assert(self.links@.take(0) =~= Seq::empty());
        assert(ids@ =~= numbers_of(self.links@.take(0), peer)) by {
            reveal_with_fuel(Seq::filter, 1);
        }
        while i < self.links.len()
            invariant
                i <= self.links@.len(),
                wanted == (|connection: Link| concerns(connection, peer)),
                ids@ == numbers_of(self.links@.take(i as int), peer),
            decreases self.links@.len() - i,
        {
            let of = is_of(&self.links[i], peer);
            proof {
                let next = self.links@.take(i + 1);
                assert(next.drop_last() =~= self.links@.take(i as int));
                assert(next.last() == self.links@[i as int]);
                reveal_with_fuel(Seq::filter, 1);
                if of {
                    assert(numbers_of(next, peer) =~= ids@.push(self.links@[i as int].id));
                } else {
                    assert(numbers_of(next, peer) =~= ids@);
                }
            }
            if of {
                ids.push(self.links[i].id);
            }
            i = i + 1;
        }
        assert(self.links@.take(i as int) =~= self.links@);
        ids
    }

    /// Whether no connection of a device is left, or none at all. Until then whoever has denied the
    /// device waits.
    pub fn is_drained(&self, peer: Option<EndpointId>) -> (drained: bool)
        ensures
            drained == (forall|i: int|
                0 <= i < self.links@.len() ==> !concerns(#[trigger] self.links@[i], peer)),
    {
        let mut i: usize = 0;
        while i < self.links.len()
            invariant
                i <= self.links@.len(),
                forall|k: int| 0 <= k < i ==> !concerns(#[trigger] self.links@[k], peer),
            decreases self.links@.len() - i,
        {
            if is_of(&self.links[i], peer) {
                assert(concerns(self.links@[i as int], peer));
                return false;
            }
            i = i + 1;
        }
        true
    }
}

proof fn lemma_filter_one(items: Seq<Link>, id: u64, at: int)
    requires
        0 <= at < items.len(),
        items[at].id == id,
        forall|i: int, j: int|
            0 <= i < j < items.len() ==> (#[trigger] items[i]).id != (#[trigger] items[j]).id,
    ensures
        items.filter(|connection: Link| connection.id != id) == items.remove(at),
{
    let keeps = |connection: Link| connection.id != id;
    let head = items.take(at);
    let tail = items.skip(at + 1);
    assert(items =~= head.push(items[at]) + tail);
    Seq::filter_distributes_over_add(head.push(items[at]), tail, keeps);
    assert(head.push(items[at]).filter(keeps) == head.filter(keeps)) by {
        reveal_with_fuel(Seq::filter, 1);
        assert(head.push(items[at]).drop_last() =~= head);
    }
    assert forall|i: int| 0 <= i < tail.len() implies keeps(#[trigger] tail[i]) by {
        assert(tail[i] == items[at + 1 + i]);
    }
    lemma_filter_all(head, keeps);
    lemma_filter_all(tail, keeps);
    assert(head + tail =~= items.remove(at));
}

proof fn lemma_filter_all(items: Seq<Link>, keeps: spec_fn(Link) -> bool)
    requires
        forall|i: int| 0 <= i < items.len() ==> keeps(#[trigger] items[i]),
    ensures
        items.filter(keeps) == items,
    decreases items.len(),
{
    reveal_with_fuel(Seq::filter, 1);
    if items.len() > 0 {
        lemma_filter_all(items.drop_last(), keeps);
        assert(items =~= items.drop_last().push(items.last()));
    }
}

/// Another device's connection neither keeps a device from being drained nor is counted among its
/// own: the end of a connection changes nothing for other devices.
pub proof fn law_connections_of_others_do_not_count(
    links: Seq<Link>,
    ended: Link,
    peer: EndpointId,
)
    requires
        ended.peer != peer,
        forall|i: int, j: int|
            0 <= i < j < links.len() ==> (#[trigger] links[i]).id != (#[trigger] links[j]).id,
        links.contains(ended),
    ensures
        numbers_of(
            links.filter(|connection: Link| connection.id != ended.id),
            Some(peer),
        ) == numbers_of(links, Some(peer)),
{
    lemma_other_end(links, ended, peer, links.len());
    assert(links.take(links.len() as int) =~= links);
}

proof fn lemma_other_end(links: Seq<Link>, ended: Link, peer: EndpointId, n: nat)
    requires
        n <= links.len(),
        ended.peer != peer,
        forall|i: int, j: int|
            0 <= i < j < links.len() ==> (#[trigger] links[i]).id != (#[trigger] links[j]).id,
        links.contains(ended),
    ensures
        numbers_of(
            links.take(n as int).filter(|connection: Link| connection.id != ended.id),
            Some(peer),
        ) == numbers_of(links.take(n as int), Some(peer)),
    decreases n,
{
    let others = |connection: Link| connection.id != ended.id;
    let own = |connection: Link| concerns(connection, Some(peer));
    let number = |connection: Link| connection.id;
    let part = links.take(n as int);
    reveal_with_fuel(Seq::filter, 1);
    if n == 0 {
        assert(part.filter(others) =~= part);
    } else {
        lemma_other_end(links, ended, peer, (n - 1) as nat);
        let former = links.take(n - 1);
        assert(part.drop_last() =~= former);
        let last = links[n - 1];
        let at = choose|at: int| 0 <= at < links.len() && links[at] == ended;
        if others(last) {
            assert(part.filter(others) == former.filter(others).push(last));
            assert(former.filter(others).push(last).drop_last() =~= former.filter(others));
            if own(last) {
                assert(part.filter(others).filter(own) == former.filter(others).filter(own).push(
                    last,
                ));
                assert(part.filter(own) == former.filter(own).push(last));
                assert(part.filter(others).filter(own).map_values(number) =~= former.filter(
                    others,
                ).filter(own).map_values(number).push(last.id));
                assert(part.filter(own).map_values(number) =~= former.filter(own).map_values(
                    number,
                ).push(last.id));
            } else {
                assert(part.filter(others).filter(own) == former.filter(others).filter(own));
                assert(part.filter(own) == former.filter(own));
            }
        } else {
            assert(n - 1 == at);
            assert(!own(last));
            assert(part.filter(others) == former.filter(others));
            assert(part.filter(own) == former.filter(own));
        }
    }
}

} // verus!
