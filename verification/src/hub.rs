//! The operation relay hub.
//!
//! Agents connect to the hub and send it the operations they perform. The hub
//! stamps each operation with the address it came from, appends it to a log
//! that only grows, and hands every registered peer the logged operations of
//! all the others. The hub decides; sending is left to whoever drives it.

use vstd::prelude::*;

verus! {

/// The address of a peer, as the connection reports it.
#[derive(Debug, Clone, Copy, PartialEq, Eq, Structural)]
pub enum PeerAddr {
    V4 { ip: u32, port: u16 },
    V6 { ip: u128, port: u16, flowinfo: u32, scope_id: u32 },
}

impl PeerAddr {
    /// The address that stands for a peer whose address is not known:
    /// `0.0.0.0:80`.
    pub fn unknown() -> (a: PeerAddr)
        ensures
            a == (PeerAddr::V4 { ip: 0, port: 80 }),
    {
        PeerAddr::V4 { ip: 0, port: 80 }
    }
}

/// An operation as an agent reports it and the hub relays it.
#[derive(Debug, Clone, PartialEq, Eq)]
pub struct Operation {
    pub sender: PeerAddr,
    pub send_type: String,
    pub from_path: Option<String>,
    pub to_path: String,
}

/// An operation as plain values.
pub struct OperationView {
    pub sender: PeerAddr,
    pub send_type: Seq<char>,
    pub from_path: Option<Seq<char>>,
    pub to_path: Seq<char>,
}

impl View for Operation {
    type V = OperationView;

    open spec fn view(&self) -> OperationView {
        OperationView {
            sender: self.sender,
            send_type: self.send_type@,
            from_path: match self.from_path {
                Some(p) => Some(p@),
                None => None,
            },
            to_path: self.to_path@,
        }
    }
}

impl DeepView for Operation {
    type V = OperationView;

    open spec fn deep_view(&self) -> OperationView {
        self@
    }
}

impl Operation {
    /// A copy of this operation sent by `sender`.
    pub fn stamped(&self, sender: PeerAddr) -> (r: Operation)
        ensures
            r@ == (OperationView { sender: sender, ..self@ }),
    {
        Operation {
            sender,
            send_type: self.send_type.clone(),
            from_path: match &self.from_path {
                Some(p) => Some(p.clone()),
                None => None,
            },
            to_path: self.to_path.clone(),
        }
    }
}

/// One operation to be sent to one peer.
#[derive(Debug, Clone, PartialEq, Eq)]
pub struct Delivery {
    pub to: PeerAddr,
    pub operation: Operation,
}

/// A delivery as plain values.
pub struct DeliveryView {
    pub to: PeerAddr,
    pub operation: OperationView,
}

impl View for Delivery {
    type V = DeliveryView;

    open spec fn view(&self) -> DeliveryView {
        DeliveryView { to: self.to, operation: self.operation@ }
    }
}

impl DeepView for Delivery {
    type V = DeliveryView;

    open spec fn deep_view(&self) -> DeliveryView {
        self@
    }
}

/// What one connection can fail with.
#[derive(Debug, Clone, Copy, PartialEq, Eq, Structural)]
pub enum RelayError {
    /// The connection did not report the address of its peer.
    NoPeerAddress,
}

/// The life of one connection.
#[derive(Debug, Clone, Copy, PartialEq, Eq, Structural)]
pub enum ConnState {
    Connecting,
    Open,
    Closed,
}

/// What can happen to a connection.
#[derive(Debug, Clone, Copy, PartialEq, Eq, Structural)]
pub enum ConnEvent {
    /// The handshake is done; `has_addr` says whether the peer's address is
    /// known.
    Opened { has_addr: bool },
    /// A message came in, well-formed or not.
    Message,
    /// The peer left, or the connection broke.
    Closed,
}

/// The state of a connection after `event`. A connection opens once, from
/// `Connecting` and with a known address; messages leave it as it is, a
/// malformed one too; once closed it stays closed.
pub open spec fn next_state(state: ConnState, event: ConnEvent) -> ConnState {
    match (state, event) {
        (ConnState::Connecting, ConnEvent::Opened { has_addr: true }) => ConnState::Open,
        (ConnState::Connecting, ConnEvent::Opened { has_addr: false }) => ConnState::Closed,
        (_, ConnEvent::Closed) => ConnState::Closed,
        (s, _) => s,
    }
}

impl ConnState {
    /// Executable form of [`next_state`].
    pub fn after(self, event: ConnEvent) -> (next: ConnState)
        ensures
            next == next_state(self, event),
    {
        match event {
            ConnEvent::Closed => ConnState::Closed,
            ConnEvent::Opened { has_addr } => match self {
                ConnState::Connecting => if has_addr {
                    ConnState::Open
                } else {
                    ConnState::Closed
                },
                s => s,
            },
            ConnEvent::Message => self,
        }
    }
}

/// What `client` is sent from `log`: every operation whose sender is not
/// `client`, in log order.
pub open spec fn deliveries_for(client: PeerAddr, log: Seq<OperationView>) -> Seq<DeliveryView>
    decreases log.len(),
{
    if log.len() == 0 {
        Seq::empty()
    } else {
        let rest = deliveries_for(client, log.drop_last());
        if log.last().sender != client {
            rest.push(DeliveryView { to: client, operation: log.last() })
        } else {
            rest
        }
    }
}

/// What is sent after a message: for each registered client in turn, what it
/// is sent from the log.
pub open spec fn relayed(clients: Seq<PeerAddr>, log: Seq<OperationView>) -> Seq<DeliveryView>
    decreases clients.len(),
{
    if clients.len() == 0 {
        Seq::empty()
    } else {
        relayed(clients.drop_last(), log) + deliveries_for(clients.last(), log)
    }
}

/// No address occurs twice.
pub open spec fn distinct(clients: Seq<PeerAddr>) -> bool {
    forall|i: int, j: int| 0 <= i < j < clients.len() ==> clients[i] != clients[j]
}

/// The test that every address but `addr` passes.
pub open spec fn other_than(addr: PeerAddr) -> spec_fn(PeerAddr) -> bool {
    |c: PeerAddr| c != addr
}

/// `clients` without `addr`, order kept.
pub open spec fn without(clients: Seq<PeerAddr>, addr: PeerAddr) -> Seq<PeerAddr> {
    clients.filter(other_than(addr))
}

/// The shared state of the hub: the log of operations and the registry of
/// connected peers.
#[derive(Debug)]
pub struct Hub {
    log: Vec<Operation>,
    clients: Vec<PeerAddr>,
}

impl Hub {
    /// The operations received so far, oldest first.
    pub closed spec fn log(&self) -> Seq<OperationView> {
        self.log.deep_view()
    }

    /// The registered peers, in the order they connected.
    pub closed spec fn clients(&self) -> Seq<PeerAddr> {
        self.clients@
    }

    /// The registry holds each peer once.
    pub open spec fn wf(&self) -> bool {
        distinct(self.clients())
    }

    /// A hub with an empty log and no peers.
    pub fn new() -> (hub: Hub)
        ensures
            hub.log() == Seq::<OperationView>::empty(),
            hub.clients() == Seq::<PeerAddr>::empty(),
            hub.wf(),
    {
        let hub = Hub { log: Vec::new(), clients: Vec::new() };
        assert(hub.log() =~= Seq::<OperationView>::empty());
        hub
    }

    /// How many operations the log holds.
    pub fn log_len(&self) -> (n: usize)
        ensures
            n == self.log().len(),
    {
        self.log.len()
    }

    /// How many peers are registered.
    pub fn client_count(&self) -> (n: usize)
        ensures
            n == self.clients().len(),
    {
        self.clients.len()
    }

    /// Whether `addr` is registered.
    pub fn is_registered(&self, addr: PeerAddr) -> (b: bool)
        ensures
            b == self.clients().contains(addr),
    {
        let mut i: usize = 0;
        while i < self.clients.len()
            invariant
                i <= self.clients.len(),
                forall|j: int| 0 <= j < i ==> self.clients@[j] != addr,
            decreases self.clients.len() - i,
        {
            if self.clients[i] == addr {
                return true;
            }
            i += 1;
        }
        false
    }

    /// A connection opened. With a known peer address the peer is registered,
    /// once; without one the connection is refused and nothing changes. The
    /// log is never touched.
    pub fn on_open(&mut self, peer: Option<PeerAddr>) -> (r: Result<PeerAddr, RelayError>)
        ensures
            old(self).wf() ==> final(self).wf(),
            final(self).log() == old(self).log(),
            match peer {
                Some(addr) => {
                    &&& r == Ok::<PeerAddr, RelayError>(addr)
                    &&& final(self).clients() == if old(self).clients().contains(addr) {
                        old(self).clients()
                    } else {
                        old(self).clients().push(addr)
                    }
                },
                None => {
                    &&& r == Err::<PeerAddr, RelayError>(RelayError::NoPeerAddress)
                    &&& final(self).clients() == old(self).clients()
                },
            },
    {
        match peer {
            Some(addr) => {
                if !self.is_registered(addr) {
                    self.clients.push(addr);
                }
                Ok(addr)
            },
            None => Err(RelayError::NoPeerAddress),
        }
    }

    /// A connection closed: its peer leaves the registry. The log stays.
    pub fn on_close(&mut self, addr: PeerAddr)
        ensures
            final(self).log() == old(self).log(),
            final(self).clients() == without(old(self).clients(), addr),
            !final(self).clients().contains(addr),
            old(self).wf() ==> final(self).wf(),
    {
        let ghost before = self.clients@;
        let mut kept: Vec<PeerAddr> = Vec::new();
        let mut i: usize = 0;
        assert(before.take(0) =~= Seq::<PeerAddr>::empty());
        while i < self.clients.len()
            invariant
                i <= self.clients.len(),
                self.clients@ == before,
                self.log.deep_view() == old(self).log(),
                kept@ == without(before.take(i as int), addr),
            decreases self.clients.len() - i,
        {
            let c = self.clients[i];
            proof {
                assert(before.take(i + 1).drop_last() =~= before.take(i as int));
                assert(before.take(i + 1).last() == c);
                reveal(Seq::filter);
            }
            if c != addr {
                kept.push(c);
            }
            i += 1;
        }
        assert(before.take(i as int) =~= before);
        proof {
            before.filter_lemma(other_than(addr));
            if distinct(before) {
                lemma_filter_keeps_distinct(before, addr);
            }
        }
        self.clients = kept;
    }

    /// A message came in from `sender`.
    ///
    /// `incoming` is the operation it held, or `None` if it could not be read;
    /// then nothing changes and nothing is sent. Otherwise the operation is
    /// logged with `sender` as its sender, whatever the message claimed, and
    /// every registered peer is sent all logged operations that are not its
    /// own: peers in registry order, operations in log order.
    pub fn on_message(&mut self, sender: PeerAddr, incoming: Option<Operation>) -> (out: Vec<
        Delivery,
    >)
        ensures
            final(self).clients() == old(self).clients(),
            match incoming {
                Some(op) => {
                    &&& final(self).log() == old(self).log().push(
                        OperationView { sender: sender, ..op@ },
                    )
                    &&& out.deep_view() == relayed(final(self).clients(), final(self).log())
                    &&& (old(self).wf() ==> forall|c: PeerAddr|
                        #[trigger] sent_to(out.deep_view(), c) == if final(self).clients().contains(
                            c,
                        ) {
                            operations_of_others(c, final(self).log())
                        } else {
                            Seq::empty()
                        })
                },
                None => {
                    &&& final(self).log() == old(self).log()
                    &&& out.len() == 0
                },
            },
            forall|k: int|
                0 <= k < out.len() ==> (#[trigger] out[k]).operation.sender != out[k].to
                    && final(self).clients().contains(out[k].to),
    {
        let mut out: Vec<Delivery> = Vec::new();
        match incoming {
            None => out,
            Some(op) => {
                let ghost old_log = self.log.deep_view();
                let stamped = op.stamped(sender);
                self.log.push(stamped);
                assert(self.log.deep_view() =~= old_log.push(stamped@));
                let ghost log = self.log.deep_view();
                let mut c: usize = 0;
                assert(out.deep_view() =~= Seq::<DeliveryView>::empty());
                assert(self.clients@.take(0) =~= Seq::<PeerAddr>::empty());
                while c < self.clients.len()
                    invariant
                        c <= self.clients.len(),
                        self.clients@ == old(self).clients(),
                        log == self.log.deep_view(),
                        out.deep_view() == relayed(self.clients@.take(c as int), log),
                        forall|k: int|
                            0 <= k < out.len() ==> (#[trigger] out[k]).operation.sender
                                != out[k].to && self.clients@.contains(out[k].to),
                    decreases self.clients.len() - c,
                {
                    let client = self.clients[c];
                    let ghost done = out.deep_view();
                    let mut i: usize = 0;
                    assert(log.take(0) =~= Seq::<OperationView>::empty());
                    assert(out.deep_view() =~= done + deliveries_for(client, log.take(0)));
                    while i < self.log.len()
                        invariant
                            i <= self.log.len(),
                            c < self.clients.len(),
                            client == self.clients@[c as int],
                            log == self.log.deep_view(),
                            out.deep_view() == done + deliveries_for(client, log.take(i as int)),
                            forall|k: int|
                                0 <= k < out.len() ==> (#[trigger] out[k]).operation.sender
                                    != out[k].to && self.clients@.contains(out[k].to),
                        decreases self.log.len() - i,
                    {
                        let ghost sofar = out.deep_view();
                        assert(log.take(i + 1).drop_last() =~= log.take(i as int));
                        assert(log.take(i + 1).last() == self.log[i as int]@);
                        if self.log[i].sender != client {
                            let d = Delivery {
                                to: client,
                                operation: self.log[i].stamped(self.log[i].sender),
                            };
                            assert(d@.operation == self.log[i as int]@);
                            out.push(d);
                            assert(out.deep_view() =~= sofar.push(d@));
                            assert(out.deep_view() =~= done + deliveries_for(
                                client,
                                log.take(i + 1),
                            ));
                        }
                        i += 1;
                    }
                    assert(log.take(i as int) =~= log);
                    assert(self.clients@.take(c + 1).drop_last() =~= self.clients@.take(c as int));
                    assert(self.clients@.take(c + 1).last() == client);
                    c += 1;
                }
                assert(self.clients@.take(c as int) =~= self.clients@);
                proof {
                    if distinct(self.clients@) {
                        assert forall|p: PeerAddr|
                            #[trigger] sent_to(out.deep_view(), p) == if self.clients@.contains(p) {
                                operations_of_others(p, log)
                            } else {
                                Seq::empty()
                            } by {
                            lemma_each_once(self.clients@, log, p);
                        }
                    }
                }
                out
            },
        }
    }
}

/// Removing an address from a registry without duplicates leaves one without
/// duplicates.
pub proof fn lemma_filter_keeps_distinct(clients: Seq<PeerAddr>, addr: PeerAddr)
    requires
        distinct(clients),
    ensures
        distinct(without(clients, addr)),
    decreases clients.len(),
{
    reveal(Seq::filter);
    if clients.len() > 0 {
        let head = clients.drop_last();
        lemma_filter_keeps_distinct(head, addr);
        head.filter_lemma(other_than(addr));
        let kept = without(head, addr);
        if clients.last() != addr {
            assert(without(clients, addr) =~= kept.push(clients.last()));
            assert forall|i: int, j: int| 0 <= i < j < kept.len() + 1 implies kept.push(
                clients.last(),
            )[i] != kept.push(clients.last())[j] by {
                if j == kept.len() {
                    assert(kept.contains(kept[i]));
                    head.lemma_filter_contains_rev(other_than(addr), kept[i]);
                    assert(head.contains(kept[i]));
                    let k = choose|k: int| 0 <= k < head.len() && head[k] == kept[i];
                    assert(clients[k] != clients[clients.len() - 1]);
                }
            }
        } else {
            assert(without(clients, addr) =~= kept);
        }
    }
}

/// No peer is ever sent an operation of its own.
pub proof fn lemma_never_echoed(clients: Seq<PeerAddr>, log: Seq<OperationView>, k: int)
    requires
        0 <= k < relayed(clients, log).len(),
    ensures
        relayed(clients, log)[k].operation.sender != relayed(clients, log)[k].to,
        clients.contains(relayed(clients, log)[k].to),
    decreases clients.len(),
{
    if clients.len() > 0 {
        let head = relayed(clients.drop_last(), log);
        if k < head.len() {
            lemma_never_echoed(clients.drop_last(), log, k);
            let to = head[k].to;
            let j = choose|j: int| 0 <= j < clients.drop_last().len() && clients.drop_last()[j] == to;
            assert(clients[j] == to);
        } else {
            lemma_deliveries_for(clients.last(), log, k - head.len());
            assert(clients[clients.len() - 1] == clients.last());
        }
    }
}

/// The operations of `log` that `client` did not send, in log order.
pub open spec fn operations_of_others(client: PeerAddr, log: Seq<OperationView>) -> Seq<
    OperationView,
>
    decreases log.len(),
{
    if log.len() == 0 {
        Seq::empty()
    } else {
        let rest = operations_of_others(client, log.drop_last());
        if log.last().sender != client {
            rest.push(log.last())
        } else {
            rest
        }
    }
}

/// The operations that `list` addresses to `client`, in the order of `list`.
pub open spec fn sent_to(list: Seq<DeliveryView>, client: PeerAddr) -> Seq<OperationView>
    decreases list.len(),
{
    if list.len() == 0 {
        Seq::empty()
    } else {
        let rest = sent_to(list.drop_last(), client);
        if list.last().to == client {
            rest.push(list.last().operation)
        } else {
            rest
        }
    }
}

/// What two lists laid end to end address to a client is what the first
/// addresses to it, then what the second does.
pub proof fn lemma_sent_to_concat(a: Seq<DeliveryView>, b: Seq<DeliveryView>, client: PeerAddr)
    ensures
        sent_to(a + b, client) == sent_to(a, client) + sent_to(b, client),
    decreases b.len(),
{
    if b.len() == 0 {
        assert(a + b =~= a);
        assert(sent_to(a, client) + Seq::<OperationView>::empty() =~= sent_to(a, client));
    } else {
        assert((a + b).drop_last() =~= a + b.drop_last());
        assert((a + b).last() == b.last());
        lemma_sent_to_concat(a, b.drop_last(), client);
        let left = sent_to(a, client);
        let right = sent_to(b.drop_last(), client);
        assert((left + right).push(b.last().operation) =~= left + right.push(b.last().operation));
    }
}

/// What is meant for one peer holds, for that peer, the logged operations of
/// the others, and nothing for any other peer.
pub proof fn lemma_sent_to_deliveries(owner: PeerAddr, log: Seq<OperationView>, client: PeerAddr)
    ensures
        sent_to(deliveries_for(owner, log), client) == if owner == client {
            operations_of_others(client, log)
        } else {
            Seq::empty()
        },
    decreases log.len(),
{
    if log.len() > 0 {
        lemma_sent_to_deliveries(owner, log.drop_last(), client);
        let rest = deliveries_for(owner, log.drop_last());
        if log.last().sender != owner {
            let d = DeliveryView { to: owner, operation: log.last() };
            assert(rest.push(d).drop_last() =~= rest);
        }
    }
}

/// After a message every registered peer is sent each logged operation of the
/// others exactly once, in log order, and a peer that is not registered is
/// sent nothing: what the whole list addresses to a peer is the log without
/// that peer's own operations.
pub proof fn lemma_each_once(clients: Seq<PeerAddr>, log: Seq<OperationView>, client: PeerAddr)
    requires
        distinct(clients),
    ensures
        sent_to(relayed(clients, log), client) == if clients.contains(client) {
            operations_of_others(client, log)
        } else {
            Seq::empty()
        },
    decreases clients.len(),
{
    if clients.len() > 0 {
        let head = clients.drop_last();
        lemma_each_once(head, log, client);
        lemma_sent_to_concat(relayed(head, log), deliveries_for(clients.last(), log), client);
        lemma_sent_to_deliveries(clients.last(), log, client);
        if clients.last() == client {
            if head.contains(client) {
                let j = choose|j: int| 0 <= j < head.len() && head[j] == client;
                assert(clients[j] == clients[clients.len() - 1]);
            }
            assert(clients[clients.len() - 1] == client);
            assert(Seq::<OperationView>::empty() + operations_of_others(client, log)
                =~= operations_of_others(client, log));
        } else {
            if clients.contains(client) {
                let j = choose|j: int| 0 <= j < clients.len() && clients[j] == client;
                assert(head[j] == client);
            }
            if head.contains(client) {
                let j = choose|j: int| 0 <= j < head.len() && head[j] == client;
                assert(clients[j] == client);
            }
            assert(sent_to(relayed(head, log), client) + Seq::<OperationView>::empty()
                =~= sent_to(relayed(head, log), client));
        }
    }
}

/// What a client is sent is addressed to it and was sent by another.
pub proof fn lemma_deliveries_for(client: PeerAddr, log: Seq<OperationView>, k: int)
    requires
        0 <= k < deliveries_for(client, log).len(),
    ensures
        deliveries_for(client, log)[k].to == client,
        deliveries_for(client, log)[k].operation.sender != client,
    decreases log.len(),
{
    if log.len() > 0 {
        let rest = deliveries_for(client, log.drop_last());
        if k < rest.len() {
            lemma_deliveries_for(client, log.drop_last(), k);
        }
    }
}

} // verus!
