//! In-process publish/subscribe router.
//!
//! The router owns one mailbox per registered node, keyed by an address
//! that is assigned at registration, starts at 1 and is never reused. Each
//! [`Router::poll`] drains every live mailbox's outbound queue, stamps each
//! packet with its sender's address, and redistributes: a packet with a
//! destination address goes to that mailbox alone; a topic-routed packet
//! goes once to every mailbox subscribed to its topic or to the wildcard
//! topic `"all"`. A node gives up its mailbox by marking it dead; the next
//! poll reclaims the address.
//!
//! Fan-out shares one reference-counted copy of each packet instead of
//! cloning payloads.

use vstd::prelude::*;

use std::rc::Rc;

use crate::topics::PacketFormat;
use crate::topics::PacketTrait;

verus! {

/// The wildcard topic: a subscriber to `"all"` receives every topic-routed
/// packet.
pub open spec fn all_topic() -> Seq<char> {
    "all"@
}

/// Whether `subs` contains a subscription equal to `topic`.
pub open spec fn subscribed(subs: Seq<String>, topic: Seq<char>) -> bool {
    exists|i: int| 0 <= i < subs.len() && #[trigger] subs[i]@ == topic
}

/// Whether the mailbox at `addr` with subscriptions `subs` is a recipient
/// of `p`: an addressed packet goes only to its destination; a
/// topic-routed packet goes to subscribers of its topic or of `"all"`.
pub open spec fn wants(subs: Seq<String>, addr: u16, p: PacketFormat) -> bool {
    match p.to {
        Some(t) => t == addr,
        None => subscribed(subs, p.data.topic_spec()) || subscribed(subs, all_topic()),
    }
}

/// The recipient test of [`wants`], as a predicate over packets.
pub open spec fn delivery_pred(addr: u16, subs: Seq<String>) -> spec_fn(PacketFormat) -> bool {
    |p: PacketFormat| wants(subs, addr, p)
}

/// What one poll delivers, in order, to the mailbox at `addr` out of the
/// stamped packet stream.
pub open spec fn deliveries(stream: Seq<PacketFormat>, addr: u16, subs: Seq<String>) -> Seq<
    PacketFormat,
> {
    stream.filter(delivery_pred(addr, subs))
}

/// `p` stamped with its sender's address.
pub open spec fn stamp(p: PacketFormat, addr: u16) -> PacketFormat {
    p.with_from(addr)
}

/// A whole outbound queue stamped with its sender's address.
pub open spec fn stamped_seq(ps: Seq<PacketFormat>, addr: u16) -> Seq<PacketFormat> {
    ps.map_values(|p: PacketFormat| stamp(p, addr))
}

/// A sequence of shared packets holds exactly the packets of `ps`.
pub open spec fn rc_seq_is(rcs: Seq<Rc<PacketFormat>>, ps: Seq<PacketFormat>) -> bool {
    &&& rcs.len() == ps.len()
    &&& forall|i: int| 0 <= i < rcs.len() ==> rcs[i] == ps[i]
}

/// A node's mailbox: its outbound queue, its inbound queue of shared
/// packets, and its subscription list.
pub struct Client {
    client_to_router: Vec<PacketFormat>,
    router_to_client: Vec<Rc<PacketFormat>>,
    subscriptions: Vec<String>,
}

impl Client {
    /// Packets queued by the node, not yet collected by the router.
    pub closed spec fn outbox(&self) -> Seq<PacketFormat> {
        self.client_to_router@
    }

    /// Packets delivered by the router, not yet fetched by the node.
    pub closed spec fn inbox(&self) -> Seq<Rc<PacketFormat>> {
        self.router_to_client@
    }

    /// The topics this mailbox subscribes to.
    pub closed spec fn subs(&self) -> Seq<String> {
        self.subscriptions@
    }

    /// An empty mailbox with no subscriptions.
    pub fn new() -> (r: Client)
        ensures
            r.outbox() == Seq::<PacketFormat>::empty(),
            r.inbox() == Seq::<Rc<PacketFormat>>::empty(),
            r.subs() == Seq::<String>::empty(),
    {
        Client {
            client_to_router: Vec::new(),
            router_to_client: Vec::new(),
            subscriptions: Vec::new(),
        }
    }

    /// Queue a packet for the router to collect on its next poll.
    pub fn send(&mut self, packet: PacketFormat)
        ensures
            final(self).outbox() == old(self).outbox().push(packet),
            final(self).inbox() == old(self).inbox(),
            final(self).subs() == old(self).subs(),
    {
        self.client_to_router.push(packet);
    }

    /// Take every delivered packet, in delivery order.
    pub fn fetch_all(&mut self) -> (r: Vec<Rc<PacketFormat>>)
        ensures
            r@ == old(self).inbox(),
            final(self).inbox() == Seq::<Rc<PacketFormat>>::empty(),
            final(self).outbox() == old(self).outbox(),
            final(self).subs() == old(self).subs(),
    {
        let mut fetched: Vec<Rc<PacketFormat>> = Vec::new();
        core::mem::swap(&mut fetched, &mut self.router_to_client);
        fetched
    }

    /// Take every queued outbound packet, in send order. Used by the
    /// router while polling.
    pub fn fetch_client_to_router(&mut self) -> (r: Vec<PacketFormat>)
        ensures
            r@ == old(self).outbox(),
            final(self).outbox() == Seq::<PacketFormat>::empty(),
            final(self).inbox() == old(self).inbox(),
            final(self).subs() == old(self).subs(),
    {
        let mut fetched: Vec<PacketFormat> = Vec::new();
        core::mem::swap(&mut fetched, &mut self.client_to_router);
        fetched
    }

    /// Append a batch of shared packets to the inbound queue. Used by the
    /// router while polling.
    pub fn write_router_to_client(&mut self, mut packets: Vec<Rc<PacketFormat>>)
        ensures
            final(self).inbox() == old(self).inbox() + packets@,
            final(self).outbox() == old(self).outbox(),
            final(self).subs() == old(self).subs(),
    {
        self.router_to_client.append(&mut packets);
    }

    /// How many delivered packets wait in the inbound queue.
    pub fn get_inbox_len(&self) -> (r: usize)
        ensures
            r == self.inbox().len(),
    {
        self.router_to_client.len()
    }

    /// The current subscription list.
    pub fn get_subscriptions(&self) -> (r: &Vec<String>)
        ensures
            r@ == self.subs(),
    {
        &self.subscriptions
    }

    /// Add one topic to the subscription list.
    pub fn subscribe(&mut self, topic: String)
        ensures
            final(self).subs() == old(self).subs().push(topic),
            final(self).outbox() == old(self).outbox(),
            final(self).inbox() == old(self).inbox(),
    {
        self.subscriptions.push(topic);
    }

    /// Replace the subscription list wholesale.
    pub fn set_subscriptions(&mut self, topics: Vec<String>)
        ensures
            final(self).subs() == topics@,
            final(self).outbox() == old(self).outbox(),
            final(self).inbox() == old(self).inbox(),
    {
        self.subscriptions = topics;
    }
}

impl Default for Client {
    /// Same as [`Client::new`].
    fn default() -> (r: Client)
        ensures
            r.outbox() == Seq::<PacketFormat>::empty(),
            r.inbox() == Seq::<Rc<PacketFormat>>::empty(),
            r.subs() == Seq::<String>::empty(),
    {
        Client::new()
    }
}

/// One registered mailbox: its assigned address, whether its node is still
/// alive, and the mailbox itself.
pub struct RouterEntry {
    pub address: u16,
    pub alive: bool,
    pub client: Client,
}

/// The hub: every registered mailbox, and the highest address handed out
/// so far.
pub struct Router {
    pub clients_by_address: Vec<RouterEntry>,
    pub address_max: u16,
}

/// The packets one poll collects, in order: each live mailbox's outbound
/// queue, stamped with its address, in registration order.
pub open spec fn outgoing_stream(entries: Seq<RouterEntry>) -> Seq<PacketFormat>
    decreases entries.len(),
{
    if entries.len() == 0 {
        Seq::<PacketFormat>::empty()
    } else {
        let head = if entries[0].alive {
            stamped_seq(entries[0].client.outbox(), entries[0].address)
        } else {
            Seq::<PacketFormat>::empty()
        };
        head + outgoing_stream(entries.skip(1))
    }
}

/// The entries that survive a poll's liveness sweep, in order.
pub open spec fn live_view(entries: Seq<RouterEntry>) -> Seq<RouterEntry> {
    entries.filter(|e: RouterEntry| e.alive)
}

/// After a poll, a kept mailbox holds its old inbound queue followed by
/// exactly the packets delivered to it, shared by reference.
pub open spec fn inbox_extended(
    old_inbox: Seq<Rc<PacketFormat>>,
    new_inbox: Seq<Rc<PacketFormat>>,
    added: Seq<PacketFormat>,
) -> bool {
    &&& new_inbox.len() == old_inbox.len() + added.len()
    &&& forall|i: int| 0 <= i < old_inbox.len() ==> new_inbox[i] == old_inbox[i]
    &&& forall|j: int| 0 <= j < added.len() ==> new_inbox[old_inbox.len() + j] == added[j]
}

/// How one poll transforms a kept mailbox entry `e` into `f`, given the
/// stamped packet stream of that poll.
pub open spec fn polled_entry(e: RouterEntry, f: RouterEntry, stream: Seq<PacketFormat>) -> bool {
    &&& f.address == e.address
    &&& f.alive
    &&& f.client.subs() == e.client.subs()
    &&& f.client.outbox() == Seq::<PacketFormat>::empty()
    &&& inbox_extended(
        e.client.inbox(),
        f.client.inbox(),
        deliveries(stream, e.address, e.client.subs()),
    )
}

impl Router {
    /// A router with no registered mailboxes; the first assigned address
    /// will be 1.
    pub fn new() -> (r: Router)
        ensures
            r.clients_by_address@ == Seq::<RouterEntry>::empty(),
            r.address_max == 0,
    {
        Router { clients_by_address: Vec::new(), address_max: 0 }
    }

    /// Register a mailbox: assign it the next address, never reused within
    /// this router, and return that address.
    pub fn register_client(&mut self, client: Client) -> (address: u16)
        requires
            old(self).address_max < u16::MAX,
        ensures
            address == old(self).address_max + 1,
            final(self).address_max == address,
            final(self).clients_by_address@ == old(self).clients_by_address@.push(
                RouterEntry { address, alive: true, client },
            ),
    {
        self.address_max = self.address_max + 1;
        let address = self.address_max;
        self.clients_by_address.push(RouterEntry { address, alive: true, client });
        address
    }
}

impl Default for Router {
    /// Same as [`Router::new`].
    fn default() -> (r: Router)
        ensures
            r.clients_by_address@ == Seq::<RouterEntry>::empty(),
            r.address_max == 0,
    {
        Router::new()
    }
}

/// Character-by-character string comparison.
fn str_eq_chars(a: &str, b: &str) -> (r: bool)
    ensures
        r == (a@ == b@),
{
    let a_len = a.unicode_len();
    let b_len = b.unicode_len();
    if a_len != b_len {
        return false;
    }
    let mut i: usize = 0;
    while i < a_len
        invariant
            i <= a_len,
            a_len == a@.len(),
            b_len == b@.len(),
            a_len == b_len,
            forall|j: int| 0 <= j < i ==> a@[j] == b@[j],
        decreases a_len - i,
    {
        if a.get_char(i) != b.get_char(i) {
            return false;
        }
        i = i + 1;
    }
    proof {
        assert(a@ =~= b@);
    }
    true
}

/// Whether the subscription list contains `topic`.
fn contains_topic(subs: &Vec<String>, topic: &str) -> (r: bool)
    ensures
        r == subscribed(subs@, topic@),
{
    let mut i: usize = 0;
    while i < subs.len()
        invariant
            i <= subs@.len(),
            forall|j: int| 0 <= j < i ==> #[trigger] subs@[j]@ != topic@,
        decreases subs@.len() - i,
    {
        if str_eq_chars(subs[i].as_str(), topic) {
            return true;
        }
        i = i + 1;
    }
    false
}

/// The recipient test: exactly [`wants`].
fn wants_exec(subs: &Vec<String>, addr: u16, p: &PacketFormat) -> (r: bool)
    ensures
        r == wants(subs@, addr, *p),
{
    match p.to {
        Some(t) => t == addr,
        None => {
            let topic = p.data.topic();
            contains_topic(subs, topic) || contains_topic(subs, "all")
        },
    }
}

/// Relies on `Rc::clone`: the returned handle is to the very same packet,
/// no payload is copied.
#[verifier::external_body]
fn share(p: &Rc<PacketFormat>) -> (r: Rc<PacketFormat>)
    ensures
        r == *p,
{
    Rc::clone(p)
}

/// A poll keeps `f` for the mailbox that was `e`: same address and
/// subscriptions, outbound queue drained, inbound queue untouched so far.
pub open spec fn swept_entry(e: RouterEntry, f: RouterEntry) -> bool {
    &&& f.address == e.address
    &&& f.alive
    &&& f.client.subs() == e.client.subs()
    &&& f.client.inbox() == e.client.inbox()
    &&& f.client.outbox() == Seq::<PacketFormat>::empty()
}

proof fn lemma_live_view_push(s: Seq<RouterEntry>, e: RouterEntry)
    ensures
        live_view(s.push(e)) == if e.alive {
            live_view(s).push(e)
        } else {
            live_view(s)
        },
{
    reveal(Seq::filter);
    assert(s.push(e).drop_last() =~= s);
    assert(s.push(e).last() == e);
}

proof fn lemma_outgoing_stream_push(s: Seq<RouterEntry>, e: RouterEntry)
    ensures
        outgoing_stream(s.push(e)) == outgoing_stream(s) + if e.alive {
            stamped_seq(e.client.outbox(), e.address)
        } else {
            Seq::<PacketFormat>::empty()
        },
    decreases s.len(),
{
    let tail = if e.alive {
        stamped_seq(e.client.outbox(), e.address)
    } else {
        Seq::<PacketFormat>::empty()
    };
    if s.len() == 0 {
        assert(s.push(e)[0] == e);
        assert(s.push(e).skip(1) =~= Seq::<RouterEntry>::empty());
        assert(s =~= Seq::<RouterEntry>::empty());
        assert(outgoing_stream(Seq::<RouterEntry>::empty()) == Seq::<PacketFormat>::empty());
        assert(outgoing_stream(s.push(e)) == tail + outgoing_stream(s.push(e).skip(1)));
        assert(tail + Seq::<PacketFormat>::empty() =~= Seq::<PacketFormat>::empty() + tail);
    } else {
        assert(s.push(e)[0] == s[0]);
        assert(s.push(e).skip(1) =~= s.skip(1).push(e));
        lemma_outgoing_stream_push(s.skip(1), e);
        let h = if s[0].alive {
            stamped_seq(s[0].client.outbox(), s[0].address)
        } else {
            Seq::<PacketFormat>::empty()
        };
        assert(outgoing_stream(s.push(e)) == h + outgoing_stream(s.skip(1).push(e)));
        assert(outgoing_stream(s) == h + outgoing_stream(s.skip(1)));
        assert(h + (outgoing_stream(s.skip(1)) + tail) =~= (h + outgoing_stream(s.skip(1))) + tail);
    }
}

proof fn lemma_deliveries_push(s: Seq<PacketFormat>, p: PacketFormat, addr: u16, subs: Seq<String>)
    ensures
        deliveries(s.push(p), addr, subs) == if wants(subs, addr, p) {
            deliveries(s, addr, subs).push(p)
        } else {
            deliveries(s, addr, subs)
        },
{
    reveal(Seq::filter);
    assert(s.push(p).drop_last() =~= s);
    assert(s.push(p).last() == p);
}

/// The index of the first entry registered under `address`, or -1 when
/// none is.
pub open spec fn addr_index(entries: Seq<RouterEntry>, address: u16) -> int
    decreases entries.len(),
{
    if entries.len() == 0 {
        -1
    } else if entries[0].address == address {
        0
    } else {
        let rest = addr_index(entries.skip(1), address);
        if rest == -1 {
            -1
        } else {
            rest + 1
        }
    }
}

proof fn lemma_addr_index(entries: Seq<RouterEntry>, address: u16)
    ensures
        addr_index(entries, address) == -1 ==> forall|j: int|
            0 <= j < entries.len() ==> (#[trigger] entries[j]).address != address,
        addr_index(entries, address) != -1 ==> {
            let idx = addr_index(entries, address);
            &&& 0 <= idx < entries.len()
            &&& entries[idx].address == address
            &&& forall|j: int| 0 <= j < idx ==> (#[trigger] entries[j]).address != address
        },
    decreases entries.len(),
{
    if entries.len() > 0 && entries[0].address != address {
        lemma_addr_index(entries.skip(1), address);
        let rest = addr_index(entries.skip(1), address);
        if rest == -1 {
            assert forall|j: int|
                0 <= j < entries.len() implies (#[trigger] entries[j]).address != address by {
                if j >= 1 {
                    assert(entries[j] == entries.skip(1)[j - 1]);
                }
            }
        } else {
            assert(entries[rest + 1] == entries.skip(1)[rest]);
            assert forall|j: int|
                0 <= j < rest + 1 implies (#[trigger] entries[j]).address != address by {
                if j >= 1 {
                    assert(entries[j] == entries.skip(1)[j - 1]);
                }
            }
        }
    }
}

/// All entries except the one at `idx` unchanged; the entry at `idx`
/// keeps its address and liveness.
pub open spec fn only_entry_touched(
    before: Seq<RouterEntry>,
    after: Seq<RouterEntry>,
    idx: int,
) -> bool {
    &&& after.len() == before.len()
    &&& forall|j: int| 0 <= j < before.len() && j != idx ==> after[j] == #[trigger] before[j]
    &&& after[idx].address == before[idx].address
    &&& after[idx].alive == before[idx].alive
}

impl Router {
    /// The index of the entry registered under `address`, if any.
    fn find_entry(&self, address: u16) -> (r: Option<usize>)
        ensures
            match r {
                Some(i) => {
                    &&& i == addr_index(self.clients_by_address@, address)
                    &&& i < self.clients_by_address@.len()
                    &&& self.clients_by_address@[i as int].address == address
                },
                None => addr_index(self.clients_by_address@, address) == -1,
            },
    {
        proof {
            lemma_addr_index(self.clients_by_address@, address);
        }
        let n = self.clients_by_address.len();
        let mut i: usize = 0;
        while i < n
            invariant
                i <= n,
                n == self.clients_by_address@.len(),
                forall|j: int|
                    0 <= j < i ==> (#[trigger] self.clients_by_address@[j]).address != address,
            decreases n - i,
        {
            if self.clients_by_address[i].address == address {
                proof {
                    lemma_addr_index(self.clients_by_address@, address);
                }
                return Some(i);
            }
            i = i + 1;
        }
        None
    }

    /// Queue a packet in the outbound queue of the mailbox at `address`.
    /// Returns whether that address is registered.
    pub fn client_send(&mut self, address: u16, packet: PacketFormat) -> (found: bool)
        ensures
            final(self).address_max == old(self).address_max,
            found == (addr_index(old(self).clients_by_address@, address) != -1),
            !found ==> final(self).clients_by_address@ == old(self).clients_by_address@,
            found ==> {
                let idx = addr_index(old(self).clients_by_address@, address);
                let e = old(self).clients_by_address@[idx];
                let f = final(self).clients_by_address@[idx];
                &&& only_entry_touched(
                    old(self).clients_by_address@,
                    final(self).clients_by_address@,
                    idx,
                )
                &&& f.client.outbox() == e.client.outbox().push(packet)
                &&& f.client.inbox() == e.client.inbox()
                &&& f.client.subs() == e.client.subs()
            },
    {
        match self.find_entry(address) {
            Some(i) => {
                let ghost pre = self.clients_by_address@;
                let mut e = self.clients_by_address.remove(i);
                e.client.send(packet);
                self.clients_by_address.insert(i, e);
                proof {
                    assert(self.clients_by_address@ =~= pre.update(i as int, e));
                }
                true
            },
            None => false,
        }
    }

    /// Take every delivered packet of the mailbox at `address`, in
    /// delivery order; empty when the address is not registered.
    pub fn client_fetch_all(&mut self, address: u16) -> (r: Vec<Rc<PacketFormat>>)
        ensures
            final(self).address_max == old(self).address_max,
            addr_index(old(self).clients_by_address@, address) == -1 ==> {
                &&& final(self).clients_by_address@ == old(self).clients_by_address@
                &&& r@ == Seq::<Rc<PacketFormat>>::empty()
            },
            addr_index(old(self).clients_by_address@, address) != -1 ==> {
                let idx = addr_index(old(self).clients_by_address@, address);
                let e = old(self).clients_by_address@[idx];
                let f = final(self).clients_by_address@[idx];
                &&& only_entry_touched(
                    old(self).clients_by_address@,
                    final(self).clients_by_address@,
                    idx,
                )
                &&& r@ == e.client.inbox()
                &&& f.client.inbox() == Seq::<Rc<PacketFormat>>::empty()
                &&& f.client.outbox() == e.client.outbox()
                &&& f.client.subs() == e.client.subs()
            },
    {
        match self.find_entry(address) {
            Some(i) => {
                let ghost pre = self.clients_by_address@;
                let mut e = self.clients_by_address.remove(i);
                let fetched = e.client.fetch_all();
                self.clients_by_address.insert(i, e);
                proof {
                    assert(self.clients_by_address@ =~= pre.update(i as int, e));
                }
                fetched
            },
            None => Vec::new(),
        }
    }

    /// Add one topic to the subscriptions of the mailbox at `address`.
    /// Returns whether that address is registered.
    pub fn client_subscribe(&mut self, address: u16, topic: String) -> (found: bool)
        ensures
            final(self).address_max == old(self).address_max,
            found == (addr_index(old(self).clients_by_address@, address) != -1),
            !found ==> final(self).clients_by_address@ == old(self).clients_by_address@,
            found ==> {
                let idx = addr_index(old(self).clients_by_address@, address);
                let e = old(self).clients_by_address@[idx];
                let f = final(self).clients_by_address@[idx];
                &&& only_entry_touched(
                    old(self).clients_by_address@,
                    final(self).clients_by_address@,
                    idx,
                )
                &&& f.client.subs() == e.client.subs().push(topic)
                &&& f.client.inbox() == e.client.inbox()
                &&& f.client.outbox() == e.client.outbox()
            },
    {
        match self.find_entry(address) {
            Some(i) => {
                let ghost pre = self.clients_by_address@;
                let mut e = self.clients_by_address.remove(i);
                e.client.subscribe(topic);
                self.clients_by_address.insert(i, e);
                proof {
                    assert(self.clients_by_address@ =~= pre.update(i as int, e));
                }
                true
            },
            None => false,
        }
    }

    /// Replace wholesale the subscriptions of the mailbox at `address`.
    /// Returns whether that address is registered.
    pub fn client_set_subscriptions(&mut self, address: u16, topics: Vec<String>) -> (found: bool)
        ensures
            final(self).address_max == old(self).address_max,
            found == (addr_index(old(self).clients_by_address@, address) != -1),
            !found ==> final(self).clients_by_address@ == old(self).clients_by_address@,
            found ==> {
                let idx = addr_index(old(self).clients_by_address@, address);
                let e = old(self).clients_by_address@[idx];
                let f = final(self).clients_by_address@[idx];
                &&& only_entry_touched(
                    old(self).clients_by_address@,
                    final(self).clients_by_address@,
                    idx,
                )
                &&& f.client.subs() == topics@
                &&& f.client.inbox() == e.client.inbox()
                &&& f.client.outbox() == e.client.outbox()
            },
    {
        match self.find_entry(address) {
            Some(i) => {
                let ghost pre = self.clients_by_address@;
                let mut e = self.clients_by_address.remove(i);
                e.client.set_subscriptions(topics);
                self.clients_by_address.insert(i, e);
                proof {
                    assert(self.clients_by_address@ =~= pre.update(i as int, e));
                }
                true
            },
            None => false,
        }
    }

    /// How many delivered packets wait in the mailbox at `address`; 0
    /// when the address is not registered.
    pub fn client_packet_count(&self, address: u16) -> (r: usize)
        ensures
            addr_index(self.clients_by_address@, address) != -1 ==> r
                == self.clients_by_address@[addr_index(
                self.clients_by_address@,
                address,
            )].client.inbox().len(),
            addr_index(self.clients_by_address@, address) == -1 ==> r == 0,
    {
        match self.find_entry(address) {
            Some(i) => self.clients_by_address[i].client.get_inbox_len(),
            None => 0,
        }
    }
}

proof fn lemma_stream_empty(entries: Seq<RouterEntry>)
    requires
        forall|k: int|
            0 <= k < entries.len() ==> (#[trigger] entries[k]).client.outbox().len() == 0,
    ensures
        outgoing_stream(entries) == Seq::<PacketFormat>::empty(),
    decreases entries.len(),
{
    if entries.len() > 0 {
        lemma_stream_empty(entries.skip(1));
        assert(stamped_seq(entries[0].client.outbox(), entries[0].address) =~= Seq::<
            PacketFormat,
        >::empty());
        assert(outgoing_stream(entries) =~= Seq::<PacketFormat>::empty());
    }
}

proof fn lemma_stream_single(entries: Seq<RouterEntry>, pi: int, p: PacketFormat)
    requires
        0 <= pi < entries.len(),
        entries[pi].alive,
        entries[pi].client.outbox() == seq![p],
        forall|k: int|
            0 <= k < entries.len() && k != pi ==> (
            #[trigger] entries[k]).client.outbox().len() == 0,
    ensures
        outgoing_stream(entries) == seq![stamp(p, entries[pi].address)],
    decreases entries.len(),
{
    if pi == 0 {
        assert(stamped_seq(entries[0].client.outbox(), entries[0].address) =~= seq![
            stamp(p, entries[0].address),
        ]);
        lemma_stream_empty(entries.skip(1));
        assert(outgoing_stream(entries) =~= seq![stamp(p, entries[pi].address)]);
    } else {
        assert(entries.skip(1)[pi - 1] == entries[pi]);
        assert(forall|k: int|
            0 <= k < entries.skip(1).len() && k != pi - 1 ==> (
            #[trigger] entries.skip(1)[k]).client.outbox().len() == 0);
        lemma_stream_single(entries.skip(1), pi - 1, p);
        assert(stamped_seq(entries[0].client.outbox(), entries[0].address) =~= Seq::<
            PacketFormat,
        >::empty());
        assert(outgoing_stream(entries) =~= seq![stamp(p, entries.skip(1)[pi - 1].address)]);
    }
}

proof fn lemma_deliveries_single(q: PacketFormat, addr: u16, subs: Seq<String>)
    ensures
        deliveries(seq![q], addr, subs) == if wants(subs, addr, q) {
            seq![q]
        } else {
            Seq::<PacketFormat>::empty()
        },
{
    reveal(Seq::filter);
    assert(seq![q].drop_last() =~= Seq::<PacketFormat>::empty());
    assert(seq![q].last() == q);
    assert(Seq::<PacketFormat>::empty().filter(delivery_pred(addr, subs)) =~= Seq::<
        PacketFormat,
    >::empty());
    if wants(subs, addr, q) {
        assert(deliveries(seq![q], addr, subs) =~= seq![q]);
    } else {
        assert(deliveries(seq![q], addr, subs) =~= Seq::<PacketFormat>::empty());
    }
}

/// Law: when one live mailbox publishes a single topic-routed packet and
/// nothing else is queued, a poll's stream is that one packet stamped with
/// the publisher's address, and it is delivered exactly once to every live
/// mailbox subscribed to the packet's topic or to `"all"`, and to no
/// other.
pub proof fn lemma_router_fanout(entries: Seq<RouterEntry>, pi: int, p: PacketFormat, k: int)
    requires
        0 <= pi < entries.len(),
        entries[pi].alive,
        entries[pi].client.outbox() == seq![p],
        forall|t: int|
            0 <= t < entries.len() && t != pi ==> (
            #[trigger] entries[t]).client.outbox().len() == 0,
        p.to is None,
        0 <= k < entries.len(),
        entries[k].alive,
    ensures
        stamp(p, entries[pi].address).from == Some(entries[pi].address),
        outgoing_stream(entries) == seq![stamp(p, entries[pi].address)],
        deliveries(outgoing_stream(entries), entries[k].address, entries[k].client.subs()) == if (
        subscribed(entries[k].client.subs(), p.data.topic_spec()) || subscribed(
            entries[k].client.subs(),
            all_topic(),
        )) {
            seq![stamp(p, entries[pi].address)]
        } else {
            Seq::<PacketFormat>::empty()
        },
{
    lemma_stream_single(entries, pi, p);
    let stamped = stamp(p, entries[pi].address);
    lemma_deliveries_single(stamped, entries[k].address, entries[k].client.subs());
    assert(stamped.to is None);
    assert(stamped.data == p.data);
}

/// Law: a packet published with a destination address is delivered only
/// to the mailbox at that address, whatever anyone's subscriptions say;
/// the destination receives it even when it is not subscribed to the
/// packet's topic.
pub proof fn lemma_address_routing_dominates(
    entries: Seq<RouterEntry>,
    pi: int,
    p: PacketFormat,
    a: u16,
    k: int,
)
    requires
        0 <= pi < entries.len(),
        entries[pi].alive,
        entries[pi].client.outbox() == seq![p],
        forall|t: int|
            0 <= t < entries.len() && t != pi ==> (
            #[trigger] entries[t]).client.outbox().len() == 0,
        p.to == Some(a),
        0 <= k < entries.len(),
        entries[k].alive,
    ensures
        outgoing_stream(entries) == seq![stamp(p, entries[pi].address)],
        deliveries(outgoing_stream(entries), entries[k].address, entries[k].client.subs())
            == if entries[k].address == a {
            seq![stamp(p, entries[pi].address)]
        } else {
            Seq::<PacketFormat>::empty()
        },
{
    lemma_stream_single(entries, pi, p);
    let stamped = stamp(p, entries[pi].address);
    lemma_deliveries_single(stamped, entries[k].address, entries[k].client.subs());
    assert(stamped.to == Some(a));
}

/// Law: once every mailbox under an address is marked dead, the liveness
/// sweep of the next poll removes that address: no kept entry carries it,
/// so it takes part in no further routing decision.
pub proof fn lemma_liveness_sweep(entries: Seq<RouterEntry>, a: u16)
    requires
        forall|k: int|
            0 <= k < entries.len() && (#[trigger] entries[k]).address == a ==> !entries[k].alive,
    ensures
        forall|i: int|
            0 <= i < live_view(entries).len() ==> (#[trigger] live_view(entries)[i]).address != a,
    decreases entries.len(),
{
    reveal(Seq::filter);
    if entries.len() > 0 {
        let pre = entries.drop_last();
        assert(forall|k: int|
            0 <= k < pre.len() && (#[trigger] pre[k]).address == a ==> !pre[k].alive);
        lemma_liveness_sweep(pre, a);
        let last = entries.last();
        assert(entries[entries.len() - 1] == last);
        if last.alive {
            assert(live_view(entries) == live_view(pre).push(last));
            assert(last.address != a);
        } else {
            assert(live_view(entries) == live_view(pre));
        }
    }
}

impl Router {
    /// Mark the mailbox at `address` dead: its node has dropped it, and
    /// the next poll reclaims the address. Returns whether the address was
    /// found.
    pub fn mark_dead(&mut self, address: u16) -> (found: bool)
        ensures
            final(self).address_max == old(self).address_max,
            final(self).clients_by_address@.len() == old(self).clients_by_address@.len(),
            forall|i: int|
                0 <= i < old(self).clients_by_address@.len() ==> {
                    let e = old(self).clients_by_address@[i];
                    let f = #[trigger] final(self).clients_by_address@[i];
                    if e.address == address {
                        f == RouterEntry { alive: false, ..e }
                    } else {
                        f == e
                    }
                },
            found == exists|i: int|
                0 <= i < old(self).clients_by_address@.len() && (
                #[trigger] old(self).clients_by_address@[i]).address == address,
    {
        let n = self.clients_by_address.len();
        let mut i: usize = 0;
        let mut found = false;
        while i < n
            invariant
                i <= n,
                n == self.clients_by_address@.len(),
                self.address_max == old(self).address_max,
                old(self).clients_by_address@.len() == n,
                forall|j: int|
                    i <= j < n ==> #[trigger] self.clients_by_address@[j] == old(
                        self,
                    ).clients_by_address@[j],
                forall|j: int|
                    0 <= j < i ==> {
                        let e = old(self).clients_by_address@[j];
                        let f = #[trigger] self.clients_by_address@[j];
                        if e.address == address {
                            f == RouterEntry { alive: false, ..e }
                        } else {
                            f == e
                        }
                    },
                found == exists|j: int|
                    0 <= j < i && (#[trigger] old(self).clients_by_address@[j]).address
                        == address,
            decreases n - i,
    {
            let ghost pre = self.clients_by_address@;
            let hit = self.clients_by_address[i].address == address;
            if hit {
                let mut e = self.clients_by_address.remove(i);
                e.alive = false;
                self.clients_by_address.insert(i, e);
                found = true;
                proof {
                    assert(self.clients_by_address@ =~= pre.update(
                        i as int,
                        RouterEntry { alive: false, ..pre[i as int] },
                    ));
                }
            }
            i = i + 1;
        }
        found
    }

    /// One tick of distribution: sweep dead mailboxes, drain every live
    /// outbound queue in registration order, stamp each packet with its
    /// sender's address, and deliver each packet once to every recipient
    /// mailbox, in stream order.
    pub fn poll(&mut self)
        ensures
            final(self).address_max == old(self).address_max,
            final(self).clients_by_address@.len() == live_view(old(self).clients_by_address@).len(),
            forall|i: int|
                0 <= i < live_view(old(self).clients_by_address@).len() ==> polled_entry(
                    live_view(old(self).clients_by_address@)[i],
                    #[trigger] final(self).clients_by_address@[i],
                    outgoing_stream(old(self).clients_by_address@),
                ),
    {
        let ghost orig = self.clients_by_address@;
        let mut entries: Vec<RouterEntry> = Vec::new();
        core::mem::swap(&mut entries, &mut self.clients_by_address);

        // Sweep dead mailboxes; drain and stamp every live outbound queue.
        let mut live: Vec<RouterEntry> = Vec::new();
        let mut stream: Vec<PacketFormat> = Vec::new();
        let ghost mut i: int = 0;
        while entries.len() > 0
            invariant
                0 <= i <= orig.len(),
                entries@ == orig.skip(i),
                stream@ == outgoing_stream(orig.take(i)),
                live@.len() == live_view(orig.take(i)).len(),
                forall|k: int|
                    0 <= k < live@.len() ==> swept_entry(
                        live_view(orig.take(i))[k],
                        #[trigger] live@[k],
                    ),
            decreases entries@.len(),
        {
            let ghost taken = orig.take(i);
            let mut e = entries.remove(0);
            proof {
                assert(e == orig[i]);
                assert(entries@ =~= orig.skip(i + 1));
                assert(orig.take(i + 1) =~= taken.push(e));
                lemma_live_view_push(taken, e);
                lemma_outgoing_stream_push(taken, e);
            }
            if e.alive {
                let ghost e_orig = e;
                let addr = e.address;
                let mut out = e.client.fetch_client_to_router();
                let ghost out_orig = out@;
                let ghost prev_stream = stream@;
                let ghost mut j: int = 0;
                while out.len() > 0
                    invariant
                        0 <= j <= out_orig.len(),
                        out@ == out_orig.skip(j),
                        stream@ == prev_stream + stamped_seq(out_orig.take(j), addr),
                    decreases out@.len(),
                {
                    let mut p = out.remove(0);
                    proof {
                        assert(p == out_orig[j]);
                        assert(out@ =~= out_orig.skip(j + 1));
                    }
                    p.set_from(addr);
                    stream.push(p);
                    proof {
                        assert(stamped_seq(out_orig.take(j + 1), addr) =~= stamped_seq(
                            out_orig.take(j),
                            addr,
                        ).push(stamp(out_orig[j], addr)));
                        j = j + 1;
                    }
                }
                proof {
                    assert(out_orig.take(out_orig.len() as int) =~= out_orig);
                    assert(stream@ == prev_stream + stamped_seq(e_orig.client.outbox(), addr));
                }
                live.push(e);
                proof {
                    assert(live_view(orig.take(i + 1)) =~= live_view(taken).push(e_orig));
                    assert(swept_entry(e_orig, e));
                }
            } else {
                proof {
                    assert(outgoing_stream(orig.take(i + 1)) =~= stream@);
                }
            }
            proof {
                i = i + 1;
            }
        }
        proof {
            assert(orig.take(orig.len() as int) =~= orig);
        }
        let ghost full_stream = outgoing_stream(orig);
        let ghost swept = live@;

        // Share each stamped packet once.
        let mut rc_stream: Vec<Rc<PacketFormat>> = Vec::new();
        let ghost stream_view = stream@;
        let ghost mut k: int = 0;
        while stream.len() > 0
            invariant
                0 <= k <= stream_view.len(),
                stream@ == stream_view.skip(k),
                rc_stream@.len() == k,
                forall|t: int| 0 <= t < k ==> #[trigger] rc_stream@[t] == stream_view[t],
            decreases stream@.len(),
        {
            let p = stream.remove(0);
            proof {
                assert(p == stream_view[k]);
                assert(stream@ =~= stream_view.skip(k + 1));
            }
            rc_stream.push(Rc::new(p));
            proof {
                k = k + 1;
            }
        }

        // Deliver to each kept mailbox, in stream order.
        let ghost mut d: int = 0;
        while live.len() > 0
            invariant
                0 <= d <= swept.len(),
                live@ == swept.skip(d),
                rc_stream@.len() == stream_view.len(),
                forall|t: int| 0 <= t < stream_view.len() ==> #[trigger] rc_stream@[t]
                    == stream_view[t],
                self.clients_by_address@.len() == d,
                self.address_max == old(self).address_max,
                swept.len() == live_view(orig).len(),
                forall|t: int|
                    0 <= t < swept.len() ==> swept_entry(live_view(orig)[t], #[trigger] swept[t]),
                forall|t: int|
                    0 <= t < d ==> polled_entry(
                        swept[t],
                        #[trigger] self.clients_by_address@[t],
                        stream_view,
                    ),
            decreases live@.len(),
        {
            let mut e = live.remove(0);
            proof {
                assert(e == swept[d]);
                assert(live@ =~= swept.skip(d + 1));
            }
            let ghost e_before = e;
            let addr = e.address;
            let mut batch: Vec<Rc<PacketFormat>> = Vec::new();
            proof {
                reveal(Seq::filter);
                assert(stream_view.take(0).len() == 0);
                assert(deliveries(stream_view.take(0), addr, e.client.subs())
                    =~= Seq::<PacketFormat>::empty());
            }
            let mut s: usize = 0;
            while s < rc_stream.len()
                invariant
                    0 <= s <= rc_stream@.len(),
                    rc_stream@.len() == stream_view.len(),
                    forall|t: int| 0 <= t < stream_view.len() ==> #[trigger] rc_stream@[t]
                        == stream_view[t],
                    e == e_before,
                    addr == e.address,
                    rc_seq_is(
                        batch@,
                        deliveries(stream_view.take(s as int), addr, e.client.subs()),
                    ),
                decreases rc_stream@.len() - s,
            {
                let ghost prev = deliveries(stream_view.take(s as int), addr, e.client.subs());
                let hit = wants_exec(e.client.get_subscriptions(), addr, &rc_stream[s]);
                proof {
                    assert(stream_view.take(s + 1) =~= stream_view.take(s as int).push(
                        stream_view[s as int],
                    ));
                    lemma_deliveries_push(
                        stream_view.take(s as int),
                        stream_view[s as int],
                        addr,
                        e.client.subs(),
                    );
                }
                if hit {
                    batch.push(share(&rc_stream[s]));
                }
                s = s + 1;
            }
            proof {
                assert(stream_view.take(stream_view.len() as int) =~= stream_view);
            }
            e.client.write_router_to_client(batch);
            self.clients_by_address.push(e);
            proof {
                assert(polled_entry(swept[d], self.clients_by_address@[d], stream_view));
                d = d + 1;
            }
        }
        proof {
            assert(swept.skip(swept.len() as int) =~= Seq::<RouterEntry>::empty());
            assert forall|t: int| 0 <= t < live_view(orig).len() implies polled_entry(
                live_view(orig)[t],
                #[trigger] self.clients_by_address@[t],
                full_stream,
            ) by {
                assert(swept_entry(live_view(orig)[t], swept[t]));
                assert(polled_entry(swept[t], self.clients_by_address@[t], stream_view));
            }
        }
    }
}

} // verus!
