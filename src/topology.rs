use vstd::prelude::*;
use crate::addr::{span, Ipv4Range};
use crate::behavior::NatBehavior;
use crate::text::{decimal, dotted, http_url};

verus! {

/// The first control port handed to a machine.
pub const FIRST_PORT: u16 = 50000;

/// Base of the private block that networks without a given range come from
/// (`10.0.0.0/8`).
pub const PRIVATE_BASE: u32 = 0x0A00_0000;

/// How many `/24` blocks the private block holds.
pub const BLOCK_COUNT: u32 = 65536;

/// Prefix length of a carved block.
pub const BLOCK_PREFIX: u8 = 24;

#[derive(Clone, Copy, Debug, PartialEq, Eq, Structural)]
pub struct NetworkId(pub usize);

#[derive(Clone, Copy, Debug, PartialEq, Eq, Structural)]
pub struct MachineId(pub usize);

/// Errors in building a topology.
#[derive(Clone, Copy, Debug, PartialEq, Eq, Structural)]
pub enum TopologyError {
    /// No free block is left for a new network.
    RangeExhausted,
    /// No free host address is left in the network.
    RangeFull,
    /// The address is held by another machine of the network.
    AddressInUse,
    /// The address is not a host address of the network.
    AddressOutOfRange,
    /// A route for this pair of networks exists already.
    RouteConflict,
    UnknownMachine,
    UnknownNetwork,
    /// The machine is plugged into a network already.
    AlreadyPlugged,
    /// The machine is plugged into no network yet.
    Unplugged,
}

/// Errors of machines and their namespaces.
#[derive(Clone, Copy, Debug, PartialEq, Eq, Structural)]
pub enum ProcessError {
    /// No machine could be made (no control port is left).
    SpawnFailed,
    /// The machine is unknown or its process has exited.
    NamespaceUnavailable,
    /// Another namespace is entered already.
    NamespaceBusy,
}

/// Errors of the compositions that build and start a node.
#[derive(Clone, Copy, Debug, PartialEq, Eq, Structural)]
pub enum SimError {
    Topology(TopologyError),
    Process(ProcessError),
}

/// A started node: its machine, the local network it sits in behind a NAT
/// (if any), the global network it reaches, its address and control port.
#[derive(Clone, Copy, Debug, PartialEq, Eq, Structural)]
pub struct Node {
    pub machine: MachineId,
    pub local_net: Option<NetworkId>,
    pub global_net: Option<NetworkId>,
    pub addr: u32,
    pub port: u16,
}

impl Node {
    /// The address of the node in the network it is plugged into.
    pub fn address(&self) -> (r: u32)
        ensures
            r == self.addr,
    {
        self.addr
    }

    /// Enters the node's namespace in `sim`, as `Simulator::enter_namespace`.
    pub fn enter_namespace(&self, sim: &mut Simulator) -> (r: Result<(), ProcessError>)
        requires
            old(sim).wf(),
        ensures
            final(sim).wf(),
            old(sim).namespace_entered(*final(sim), self.machine, r),
    {
        sim.enter_namespace(self.machine)
    }

    /// The URL of the node's control API, `http://<address>:<port>`.
    pub fn endpoint_url(&self) -> (r: String)
        ensures
            r@ == "http://"@ + dotted(self.addr) + ":"@ + decimal(self.port as nat),
    {
        http_url(self.addr, self.port)
    }
}

/// A virtual network: its range, and whether its range was carved out of
/// the private block by the simulator.
#[derive(Clone, Copy, Debug, PartialEq, Eq, Structural)]
pub struct Network {
    pub range: Ipv4Range,
    pub carved: bool,
}

/// A machine: its control port, the network it is plugged into with its
/// address there, and whether its process still runs.
#[derive(Clone, Copy, Debug, PartialEq, Eq, Structural)]
pub struct Machine {
    pub port: u16,
    pub net: Option<usize>,
    pub addr: u32,
    pub alive: bool,
}

/// A NAT route from a local network to a global one, with the address the
/// NAT holds in the global network.
#[derive(Clone, Copy, Debug, PartialEq, Eq, Structural)]
pub struct NatRoute {
    pub global: usize,
    pub local: usize,
    pub behavior: NatBehavior,
    /// The NAT's own address in the global network.
    pub public_addr: u32,
}

/// The `k`-th `/24` block of the private block.
pub open spec fn carved_block(k: int) -> Ipv4Range {
    Ipv4Range { base: (PRIVATE_BASE + k * 256) as u32, prefix: BLOCK_PREFIX }
}

/// Block `k` overlaps none of the networks.
pub open spec fn block_free(nets: Seq<Network>, k: int) -> bool {
    forall|i: int| 0 <= i < nets.len() ==> (#[trigger] nets[i]).range.disjoint(carved_block(k))
}

/// No machine holds address `a` in network `n`.
pub open spec fn host_free(machines: Seq<Machine>, n: int, a: int) -> bool {
    forall|m: int|
        0 <= m < machines.len() ==> !((#[trigger] machines[m]).net == Some(n as usize)
            && machines[m].addr == a)
}

/// No NAT holds address `a` in network `n`.
pub open spec fn route_free(routes: Seq<NatRoute>, n: int, a: int) -> bool {
    forall|r: int|
        0 <= r < routes.len() ==> !((#[trigger] routes[r]).global == n as usize && routes[r].public_addr
            == a)
}

/// Neither a machine nor a NAT holds address `a` in network `n`.
pub open spec fn addr_free(machines: Seq<Machine>, routes: Seq<NatRoute>, n: int, a: int) -> bool {
    host_free(machines, n, a) && route_free(routes, n, a)
}

/// Every host address of network `n` is held by a machine or a NAT.
pub open spec fn range_full(nets: Seq<Network>, machines: Seq<Machine>, routes: Seq<NatRoute>, n: int) -> bool {
    forall|a: int| #[trigger] nets[n].range.is_host(a) ==> !addr_free(machines, routes, n, a)
}

/// `a` is the lowest free host address of network `n`.
pub open spec fn lowest_free(
    nets: Seq<Network>,
    machines: Seq<Machine>,
    routes: Seq<NatRoute>,
    n: int,
    a: int,
) -> bool {
    &&& nets[n].range.is_host(a)
    &&& addr_free(machines, routes, n, a)
    &&& forall|b: int| nets[n].range.is_host(b) && b < a ==> !#[trigger] addr_free(machines, routes, n, b)
}

pub open spec fn pair_routed(routes: Seq<NatRoute>, g: int, l: int) -> bool {
    exists|i: int| 0 <= i < routes.len() && routes[i].global == g && (#[trigger] routes[i]).local == l
}

proof fn lemma_carved_block(k: int)
    requires
        0 <= k < BLOCK_COUNT,
    ensures
        carved_block(k).wf(),
        carved_block(k).size() == 256,
        carved_block(k).lo() == PRIVATE_BASE + k * 256,
{
    reveal_with_fuel(span, 9);
}

proof fn lemma_block_free_push(nets: Seq<Network>, x: Network, k: int)
    requires
        block_free(nets.push(x), k),
    ensures
        block_free(nets, k),
        nets.push(x).last().range.disjoint(carved_block(k)),
{
    assert forall|i: int| 0 <= i < nets.len() implies (#[trigger] nets[i]).range.disjoint(
        carved_block(k),
    ) by {
        assert(nets.push(x)[i] == nets[i]);
    }
    assert(nets.push(x)[nets.len() as int] == x);
}

proof fn lemma_plug_frees(ms: Seq<Machine>, m: int, n: usize, a: u32)
    requires
        0 <= m < ms.len(),
        ms[m].net is None,
    ensures
        forall|k: int, b: int|
            #![auto]
            !(k == n && b == a) && 0 <= k <= usize::MAX ==> (host_free(
                ms.update(m, Machine { net: Some(n), addr: a, ..ms[m] }),
                k,
                b,
            ) == host_free(ms, k, b)),
        !host_free(ms.update(m, Machine { net: Some(n), addr: a, ..ms[m] }), n as int, a as int),
{
    let ms2 = ms.update(m, Machine { net: Some(n), addr: a, ..ms[m] });
    assert forall|k: int, b: int|
        #![auto]
        !(k == n && b == a) && 0 <= k <= usize::MAX implies (host_free(ms2, k, b) == host_free(
            ms,
            k,
            b,
        )) by {
        if host_free(ms, k, b) {
            assert forall|i: int| 0 <= i < ms2.len() implies !((#[trigger] ms2[i]).net == Some(
                k as usize,
            ) && ms2[i].addr == b) by {
                if i != m {
                    assert(ms2[i] == ms[i]);
                } else {
                    assert(ms2[m].net == Some(n) && ms2[m].addr == a);
                    assert(!(k == n && b == a));
                }
            }
        } else {
            let i = choose|i: int|
                0 <= i < ms.len() && (#[trigger] ms[i]).net == Some(k as usize) && ms[i].addr == b;
            assert(ms2[i] == ms[i]);
        }
    }
    assert(ms2[m].net == Some(n) && ms2[m].addr == a);
}

proof fn lemma_push_unplugged(ms: Seq<Machine>, x: Machine)
    requires
        x.net is None,
    ensures
        forall|k: int, a: int| #![auto] host_free(ms.push(x), k, a) == host_free(ms, k, a),
{
    let ms2 = ms.push(x);
    assert forall|k: int, a: int| #![auto] host_free(ms2, k, a) == host_free(ms, k, a) by {
        if host_free(ms, k, a) {
            assert forall|i: int| 0 <= i < ms2.len() implies !((#[trigger] ms2[i]).net == Some(k as usize)
                && ms2[i].addr == a) by {
                if i < ms.len() {
                    assert(ms2[i] == ms[i]);
                }
            }
        } else {
            let i = choose|i: int|
                0 <= i < ms.len() && (#[trigger] ms[i]).net == Some(k as usize) && ms[i].addr == a;
            assert(ms2[i] == ms[i]);
        }
    }
}

proof fn lemma_blocks_disjoint(k1: int, k2: int)
    requires
        0 <= k1 < BLOCK_COUNT,
        0 <= k2 < BLOCK_COUNT,
        k1 != k2,
    ensures
        carved_block(k1).disjoint(carved_block(k2)),
{
    lemma_carved_block(k1);
    lemma_carved_block(k2);
}

proof fn lemma_same_hosts(ms: Seq<Machine>, m: int, x: Machine)
    requires
        0 <= m < ms.len(),
        x.net == ms[m].net,
        x.addr == ms[m].addr,
    ensures
        forall|k: int, a: int| #![auto] host_free(ms.update(m, x), k, a) == host_free(ms, k, a),
{
    let ms2 = ms.update(m, x);
    assert forall|k: int, a: int| #![auto] host_free(ms2, k, a) == host_free(ms, k, a) by {
        if host_free(ms, k, a) {
            assert forall|i: int| 0 <= i < ms2.len() implies !((#[trigger] ms2[i]).net == Some(k as usize)
                && ms2[i].addr == a) by {
                assert(ms2[i].net == ms[i].net && ms2[i].addr == ms[i].addr);
            }
        } else {
            let i = choose|i: int|
                0 <= i < ms.len() && (#[trigger] ms[i]).net == Some(k as usize) && ms[i].addr == a;
            assert(ms2[i].net == ms[i].net && ms2[i].addr == ms[i].addr);
        }
    }
}

proof fn lemma_all_free(nets: Seq<Network>, ms: Seq<Machine>, rs: Seq<NatRoute>, n: int)
    requires
        0 <= n < nets.len(),
        nets[n].range.size() >= 4,
        forall|a: int| #![auto] addr_free(ms, rs, n, a),
    ensures
        !range_full(nets, ms, rs, n),
        forall|a: int| lowest_free(nets, ms, rs, n, a) ==> a == nets[n].range.lo() + 2,
{
    let lo = nets[n].range.lo();
    assert(nets[n].range.is_host(lo + 2));
    assert forall|a: int| lowest_free(nets, ms, rs, n, a) implies a == lo + 2 by {
        if a != lo + 2 {
            assert(addr_free(ms, rs, n, lo + 2));
        }
    }
}

/// Owns the networks, machines and NAT routes of one run, with the address,
/// block and port allocators.
pub struct Simulator {
    networks: Vec<Network>,
    cursors: Vec<u64>,
    machines: Vec<Machine>,
    commands: Vec<String>,
    routes: Vec<NatRoute>,
    next_block: u32,
    entered: Option<usize>,
}

impl Simulator {
    pub closed spec fn nets(&self) -> Seq<Network> {
        self.networks@
    }

    pub closed spec fn machs(&self) -> Seq<Machine> {
        self.machines@
    }

    pub closed spec fn cmds(&self) -> Seq<Seq<char>> {
        self.commands@.map_values(|c: String| c@)
    }

    pub closed spec fn route_table(&self) -> Seq<NatRoute> {
        self.routes@
    }

    /// The machine whose namespace is entered, if any.
    pub closed spec fn entered_ns(&self) -> Option<usize> {
        self.entered
    }

    pub closed spec fn wf(&self) -> bool {
        let nets = self.networks@;
        let ms = self.machines@;
        &&& self.cursors@.len() == nets.len()
        &&& self.commands@.len() == ms.len()
        &&& ms.len() <= 65536 - FIRST_PORT
        &&& self.next_block <= BLOCK_COUNT
        &&& forall|i: int| 0 <= i < nets.len() ==> (#[trigger] nets[i]).range.wf()
        &&& forall|i: int, j: int|
            0 <= i < j < nets.len() && (#[trigger] nets[j]).carved ==> (#[trigger] nets[i]).range.disjoint(
                nets[j].range,
            )
        &&& forall|k: int| 0 <= k < self.next_block ==> !#[trigger] block_free(nets, k)
        &&& forall|n: int|
            0 <= n < nets.len() ==> {
                &&& nets[n].range.lo() + 1 <= #[trigger] self.cursors@[n] <= nets[n].range.hi()
                &&& forall|a: int|
                    nets[n].range.lo() + 1 < a < self.cursors@[n] ==> !#[trigger] addr_free(ms, self.routes@, n, a)
            }
        &&& forall|m: int|
            0 <= m < ms.len() ==> {
                &&& (#[trigger] ms[m]).port == FIRST_PORT + m
                &&& ms[m].net matches Some(n) ==> n < nets.len() && nets[n as int].range.is_host(
                    ms[m].addr as int,
                )
            }
        &&& forall|m1: int, m2: int|
            0 <= m1 < ms.len() && 0 <= m2 < ms.len() && m1 != m2 && (#[trigger] ms[m1]).net is Some
                && ms[m1].net == (#[trigger] ms[m2]).net ==> ms[m1].addr != ms[m2].addr
        &&& forall|r: int|
            0 <= r < self.routes@.len() ==> (#[trigger] self.routes@[r]).global < nets.len()
                && self.routes@[r].local < nets.len()
        &&& forall|r: int|
            0 <= r < self.routes@.len() ==> nets[(#[trigger] self.routes@[r]).global as int].range.is_host(
                self.routes@[r].public_addr as int,
            )
        &&& forall|m: int, r: int|
            0 <= m < ms.len() && 0 <= r < self.routes@.len() && (#[trigger] ms[m]).net == Some(
                (#[trigger] self.routes@[r]).global,
            ) ==> ms[m].addr != self.routes@[r].public_addr
        &&& forall|r1: int, r2: int|
            0 <= r1 < r2 < self.routes@.len() && (#[trigger] self.routes@[r1]).global
                == (#[trigger] self.routes@[r2]).global ==> self.routes@[r1].public_addr
                != self.routes@[r2].public_addr
        &&& forall|r1: int, r2: int|
            0 <= r1 < r2 < self.routes@.len() ==> !((#[trigger] self.routes@[r1]).global
                == (#[trigger] self.routes@[r2]).global && self.routes@[r1].local
                == self.routes@[r2].local)
        &&& self.entered matches Some(m) ==> m < ms.len()
    }

    /// An empty simulator.
    pub fn new() -> (s: Simulator)
        ensures
            s.wf(),
            s.nets() == Seq::<Network>::empty(),
            s.machs() == Seq::<Machine>::empty(),
            s.route_table() == Seq::<NatRoute>::empty(),
            s.entered_ns() is None,
    {
        Simulator {
            networks: Vec::new(),
            cursors: Vec::new(),
            machines: Vec::new(),
            commands: Vec::new(),
            routes: Vec::new(),
            next_block: 0,
            entered: None,
        }
    }

    fn block_is_free(&self, k: u32) -> (r: bool)
        requires
            self.wf(),
            k < BLOCK_COUNT,
        ensures
            r == block_free(self.nets(), k as int),
    {
        let base: u32 = PRIVATE_BASE + k * 256;
        let block = Ipv4Range { base, prefix: BLOCK_PREFIX };
        proof {
            lemma_carved_block(k as int);
        }
        let mut i: usize = 0;
        while i < self.networks.len()
            invariant
                self.wf(),
                block == carved_block(k as int),
                block.wf(),
                i <= self.networks@.len(),
                forall|j: int| 0 <= j < i ==> (#[trigger] self.networks@[j]).range.disjoint(block),
            decreases self.networks@.len() - i,
        {
            let r = self.networks[i].range;
            if !r.is_disjoint(&block) {
                return false;
            }
            i = i + 1;
        }
        true
    }

    /// The lowest free block at or above the cursor; all below it are taken.
    fn find_free_block(&self) -> (r: Option<u32>)
        requires
            self.wf(),
        ensures
            r matches Some(k) ==> k < BLOCK_COUNT && self.next_block <= k && block_free(
                self.nets(),
                k as int,
            ) && forall|j: int| 0 <= j < k ==> !#[trigger] block_free(self.nets(), j),
            r is None ==> forall|j: int| 0 <= j < BLOCK_COUNT ==> !#[trigger] block_free(self.nets(), j),
    {
        self.scan_blocks(self.next_block)
    }

    /// The lowest free block at or above `start`.
    fn scan_blocks(&self, start: u32) -> (r: Option<u32>)
        requires
            self.wf(),
            start <= BLOCK_COUNT,
        ensures
            r matches Some(k) ==> start <= k < BLOCK_COUNT && block_free(self.nets(), k as int) && forall|j: int|
                start <= j < k ==> !#[trigger] block_free(self.nets(), j),
            r is None ==> forall|j: int| start <= j < BLOCK_COUNT ==> !#[trigger] block_free(self.nets(), j),
    {
        let mut k: u32 = start;
        while k < BLOCK_COUNT
            invariant
                self.wf(),
                start <= k <= BLOCK_COUNT,
                forall|j: int| start <= j < k ==> !#[trigger] block_free(self.nets(), j),
            decreases BLOCK_COUNT - k,
        {
            if self.block_is_free(k) {
                return Some(k);
            }
            k = k + 1;
        }
        None
    }

    /// Block `k` is free and every block before it is taken.
    pub open spec fn lowest_free_block(nets: Seq<Network>, k: int) -> bool {
        &&& 0 <= k < BLOCK_COUNT
        &&& block_free(nets, k)
        &&& forall|j: int| 0 <= j < k ==> !#[trigger] block_free(nets, j)
    }

    /// Creates a network with the given range, or, with none, with the
    /// lowest `/24` block of `10.0.0.0/8` that overlaps no existing network.
    pub fn spawn_network(&mut self, range: Option<Ipv4Range>) -> (r: Result<NetworkId, TopologyError>)
        requires
            old(self).wf(),
            range matches Some(g) ==> g.wf(),
        ensures
            final(self).wf(),
            final(self).machs() == old(self).machs(),
            final(self).cmds() == old(self).cmds(),
            final(self).route_table() == old(self).route_table(),
            final(self).entered_ns() == old(self).entered_ns(),
            forall|m: int|
                0 <= m < final(self).machs().len() ==> ((#[trigger] final(self).machs()[m]).net matches Some(k)
                    ==> k < old(self).nets().len()),
            range matches Some(g) ==> r == Ok::<NetworkId, TopologyError>(NetworkId(old(self).nets().len() as usize))
                && final(self).nets() == old(self).nets().push(Network { range: g, carved: false }),
            range is None ==> (r is Err <==> forall|j: int|
                0 <= j < BLOCK_COUNT ==> !#[trigger] block_free(old(self).nets(), j)),
            range is None && r is Err ==> r == Err::<NetworkId, TopologyError>(TopologyError::RangeExhausted)
                && final(self).nets() == old(self).nets(),
            range is None && r is Ok ==> r == Ok::<NetworkId, TopologyError>(NetworkId(old(self).nets().len() as usize))
                && exists|k: int| #![auto] Self::lowest_free_block(old(self).nets(), k)
                && final(self).nets() == old(self).nets().push(Network { range: carved_block(k), carved: true }),
    {
        let ghost mut chosen: int = 0;
        let (net, next) = match range {
            Some(g) => (Network { range: g, carved: false }, self.next_block),
            None => {
                let res1 = self.find_free_block();
                match res1 {
                    Some(k) => {
                        proof {
                            lemma_carved_block(k as int);
                            chosen = k as int;
                        }
                        (Network { range: Ipv4Range { base: PRIVATE_BASE + k * 256, prefix: BLOCK_PREFIX }, carved: true }, k + 1)
                    },
                    None => {
                        return Err(TopologyError::RangeExhausted);
                    },
                }
            },
        };
        let ghost old_nets = self.networks@;
        let id = self.networks.len();
        proof {
            assert(net.range.size() >= 1) by {
                crate::addr::lemma_span_monotone(0, (32 - net.range.prefix) as nat);
            }
            assert forall|k: int| 0 <= k < next implies !#[trigger] block_free(old_nets.push(net), k) by {
                if block_free(old_nets.push(net), k) {
                    lemma_block_free_push(old_nets, net, k);
                    if k == next - 1 && range is None {
                        assert(old_nets.push(net).last() == net);
                    }
                }
            }
        }
        self.networks.push(net);
        self.cursors.push(net.range.base as u64 + 1);
        self.next_block = next;
        proof {
            let nets = self.networks@;
            assert forall|i: int| 0 <= i < old_nets.len() implies #[trigger] nets[i] == old_nets[i] by {}
            assert(nets[id as int] == net);
            assert forall|i: int, j: int|
                0 <= i < j < nets.len() && (#[trigger] nets[j]).carved implies (#[trigger] nets[i]).range.disjoint(
                    nets[j].range,
                ) by {
                if j == id {
                    assert(nets[i] == old_nets[i]);
                }
            }
            let ms = self.machines@;
            assert forall|n: int| 0 <= n < nets.len() implies {
                &&& nets[n].range.lo() + 1 <= #[trigger] self.cursors@[n] <= nets[n].range.hi()
                &&& forall|a: int|
                    nets[n].range.lo() + 1 < a < self.cursors@[n] ==> !#[trigger] addr_free(ms, self.routes@, n, a)
            } by {
                if n < id {
                    assert(nets[n] == old_nets[n]);
                }
            }
        }
        proof {
            if range is None {
                assert(Self::lowest_free_block(old_nets, chosen));
            }
        }
        Ok(NetworkId(id))
    }

    /// Creates a machine that will run `command`, with the next control port.
    pub fn spawn_machine(&mut self, command: String) -> (r: Result<MachineId, ProcessError>)
        requires
            old(self).wf(),
        ensures
            final(self).wf(),
            final(self).nets() == old(self).nets(),
            final(self).route_table() == old(self).route_table(),
            final(self).entered_ns() == old(self).entered_ns(),
            old(self).machs().len() < 65536 - FIRST_PORT ==> r == Ok::<MachineId, ProcessError>(MachineId(old(self).machs().len() as usize))
                && final(self).machs() == old(self).machs().push(
                Machine { port: (FIRST_PORT + old(self).machs().len()) as u16, net: None, addr: 0, alive: true },
            ) && final(self).cmds() == old(self).cmds().push(command@),
            old(self).machs().len() >= 65536 - FIRST_PORT ==> r == Err::<MachineId, ProcessError>(ProcessError::SpawnFailed)
                && final(self).machs() == old(self).machs() && final(self).cmds() == old(self).cmds(),
    {
        let n = self.machines.len();
        if n >= (65536 - FIRST_PORT as usize) {
            return Err(ProcessError::SpawnFailed);
        }
        let ghost old_ms = self.machines@;
        let ghost old_cmds = self.commands@;
        let port: u16 = FIRST_PORT + n as u16;
        let m = Machine { port, net: None, addr: 0, alive: true };
        self.machines.push(m);
        self.commands.push(command);
        proof {
            let ms = self.machines@;
            assert forall|i: int| 0 <= i < old_ms.len() implies #[trigger] ms[i] == old_ms[i] by {}
            assert(ms[n as int] == m);
            assert(ms == old_ms.push(m));
            lemma_push_unplugged(old_ms, m);
            assert forall|k: int, a: int| #![auto] host_free(ms, k, a) == host_free(old_ms, k, a) by {}
            assert forall|k: int, a: int| #![auto] addr_free(ms, self.routes@, k, a) == addr_free(old_ms, self.routes@, k, a) by {}
            assert forall|mm: int, r: int|
                0 <= mm < ms.len() && 0 <= r < self.routes@.len() && (#[trigger] ms[mm]).net == Some(
                    (#[trigger] self.routes@[r]).global,
                ) implies ms[mm].addr != self.routes@[r].public_addr by {
                if mm < old_ms.len() {
                    assert(ms[mm] == old_ms[mm]);
                }
            }
            assert(self.commands@.map_values(|c: String| c@) =~= old_cmds.map_values(|c: String| c@).push(command@));
        }
        Ok(MachineId(n))
    }

    /// What `plug` refuses with, if anything.
    pub open spec fn plug_error(self, m: MachineId, n: NetworkId, address: Option<u32>) -> Option<
        TopologyError,
    > {
        if m.0 >= self.machs().len() {
            Some(TopologyError::UnknownMachine)
        } else if n.0 >= self.nets().len() {
            Some(TopologyError::UnknownNetwork)
        } else if self.machs()[m.0 as int].net is Some {
            Some(TopologyError::AlreadyPlugged)
        } else {
            match address {
                Some(a) => if !self.nets()[n.0 as int].range.is_host(a as int) {
                    Some(TopologyError::AddressOutOfRange)
                } else if !addr_free(self.machs(), self.route_table(), n.0 as int, a as int) {
                    Some(TopologyError::AddressInUse)
                } else {
                    None
                },
                None => if range_full(self.nets(), self.machs(), self.route_table(), n.0 as int) {
                    Some(TopologyError::RangeFull)
                } else {
                    None
                },
            }
        }
    }

    fn addr_is_free(&self, n: usize, a: u32) -> (r: bool)
        requires
            self.wf(),
        ensures
            r == addr_free(self.machs(), self.route_table(), n as int, a as int),
    {
        let mut k: usize = 0;
        while k < self.routes.len()
            invariant
                k <= self.routes@.len(),
                forall|j: int|
                    0 <= j < k ==> !((#[trigger] self.routes@[j]).global == n && self.routes@[j].public_addr
                        == a),
            decreases self.routes@.len() - k,
        {
            let route = self.routes[k];
            if route.global == n && route.public_addr == a {
                return false;
            }
            k = k + 1;
        }
        let mut i: usize = 0;
        while i < self.machines.len()
            invariant
                i <= self.machines@.len(),
                forall|j: int|
                    0 <= j < i ==> !((#[trigger] self.machines@[j]).net == Some(n) && self.machines@[j].addr
                        == a),
            decreases self.machines@.len() - i,
        {
            let rec = self.machines[i];
            if rec.net == Some(n) && rec.addr == a {
                return false;
            }
            i = i + 1;
        }
        true
    }

    /// The lowest free host address of network `n`, scanning from its cursor.
    fn find_free_host(&self, n: usize) -> (r: Option<u32>)
        requires
            self.wf(),
            n < self.nets().len(),
        ensures
            r matches Some(a) ==> lowest_free(self.nets(), self.machs(), self.route_table(), n as int, a as int) && self.cursors@[n as int] <= a,
            r is None ==> range_full(self.nets(), self.machs(), self.route_table(), n as int),
    {
        let range = self.networks[n].range;
        let hi: u64 = range.base as u64 + range.len();
        let cursor = self.cursors[n];
        let first = range.base as u64 + 2;
        let mut a: u64 = if cursor < first && first <= hi {
            first
        } else {
            cursor
        };
        while a + 1 < hi
            invariant
                self.wf(),
                n < self.nets().len(),
                range == self.nets()[n as int].range,
                hi == range.hi(),
                hi <= 0x1_0000_0000,
                range.lo() + 1 <= self.cursors@[n as int] <= a,
                a <= hi,
                range.lo() + 2 <= a || hi < range.lo() + 2,
                forall|b: int| range.lo() + 1 < b < a ==> !#[trigger] addr_free(self.machs(), self.route_table(), n as int, b),
            decreases hi - a,
        {
            if self.addr_is_free(n, a as u32) {
                return Some(a as u32);
            }
            a = a + 1;
        }
        None
    }

    /// Plugs a machine into a network, at the given address or else at the
    /// lowest free host address of the network; returns the address.
    pub fn plug(&mut self, m: MachineId, n: NetworkId, address: Option<u32>) -> (r: Result<u32, TopologyError>)
        requires
            old(self).wf(),
        ensures
            final(self).wf(),
            final(self).nets() == old(self).nets(),
            final(self).cmds() == old(self).cmds(),
            final(self).route_table() == old(self).route_table(),
            final(self).entered_ns() == old(self).entered_ns(),
            old(self).plug_error(m, n, address) matches Some(e) ==> r == Err::<u32, TopologyError>(e)
                && final(self).machs() == old(self).machs(),
            old(self).plug_error(m, n, address) is None ==> r is Ok,
            r matches Ok(a) ==> {
                &&& address matches Some(x) ==> a == x
                &&& address is None ==> lowest_free(old(self).nets(), old(self).machs(), old(self).route_table(), n.0 as int, a as int)
                &&& final(self).machs() == old(self).machs().update(
                    m.0 as int,
                    Machine { net: Some(n.0), addr: a, ..old(self).machs()[m.0 as int] },
                )
            },
    {
        if m.0 >= self.machines.len() {
            return Err(TopologyError::UnknownMachine);
        }
        if n.0 >= self.networks.len() {
            return Err(TopologyError::UnknownNetwork);
        }
        let rec = self.machines[m.0];
        if rec.net.is_some() {
            return Err(TopologyError::AlreadyPlugged);
        }
        let range = self.networks[n.0].range;
        let a: u32 = match address {
            Some(x) => {
                if !range.has_host(x) {
                    return Err(TopologyError::AddressOutOfRange);
                }
                if !self.addr_is_free(n.0, x) {
                    return Err(TopologyError::AddressInUse);
                }
                x
            },
            None => {
                let res2 = self.find_free_host(n.0);
                match res2 {
                    Some(x) => x,
                    None => {
                        return Err(TopologyError::RangeFull);
                    },
                }
            },
        };
        let ghost old_ms = self.machines@;
        let ghost old_cursors = self.cursors@;
        let new_rec = Machine { net: Some(n.0), addr: a, ..rec };
        self.machines.set(m.0, new_rec);
        if address.is_none() {
            self.cursors.set(n.0, a as u64 + 1);
        }
        proof {
            let ms = self.machines@;
            let nets = self.networks@;
            assert(ms == old_ms.update(m.0 as int, Machine { net: Some(n.0), addr: a, ..old_ms[m.0 as int] }));
            lemma_plug_frees(old_ms, m.0 as int, n.0, a);
            assert forall|k: int| 0 <= k < nets.len() implies {
                &&& nets[k].range.lo() + 1 <= #[trigger] self.cursors@[k] <= nets[k].range.hi()
                &&& forall|b: int|
                    nets[k].range.lo() + 1 < b < self.cursors@[k] ==> !#[trigger] addr_free(ms, self.routes@, k, b)
            } by {
                assert(old_cursors[k] <= self.cursors@[k]);
                assert forall|b: int| nets[k].range.lo() + 1 < b < self.cursors@[k] implies !#[trigger] addr_free(ms, self.routes@, k, b) by {
                    if !(k == n.0 && b == a) {
                        if b < old_cursors[k] {
                            assert(!addr_free(old_ms, self.routes@, k, b));
                        } else {
                            assert(k == n.0 && address is None && b < a);
                            assert(nets[k].range.is_host(b));
                            assert(!addr_free(old_ms, self.routes@, k, b));
                        }
                    }
                }
            }
            assert forall|i: int| 0 <= i < ms.len() implies {
                &&& (#[trigger] ms[i]).port == FIRST_PORT + i
                &&& ms[i].net matches Some(k) ==> k < nets.len() && nets[k as int].range.is_host(
                    ms[i].addr as int,
                )
            } by {
                if i != m.0 {
                    assert(ms[i] == old_ms[i]);
                }
            }
            assert forall|m1: int, m2: int|
                0 <= m1 < ms.len() && 0 <= m2 < ms.len() && m1 != m2 && (#[trigger] ms[m1]).net is Some
                    && ms[m1].net == (#[trigger] ms[m2]).net implies ms[m1].addr != ms[m2].addr by {
                if m1 == m.0 {
                    assert(ms[m2] == old_ms[m2]);
                    assert(!(old_ms[m2].net == Some(n.0) && old_ms[m2].addr == a));
                } else if m2 == m.0 {
                    assert(ms[m1] == old_ms[m1]);
                    assert(!(old_ms[m1].net == Some(n.0) && old_ms[m1].addr == a));
                } else {
                    assert(ms[m1] == old_ms[m1]);
                    assert(ms[m2] == old_ms[m2]);
                }
            }
            assert forall|mm: int, r: int|
                0 <= mm < ms.len() && 0 <= r < self.routes@.len() && (#[trigger] ms[mm]).net == Some(
                    (#[trigger] self.routes@[r]).global,
                ) implies ms[mm].addr != self.routes@[r].public_addr by {
                if mm != m.0 {
                    assert(ms[mm] == old_ms[mm]);
                } else {
                    assert(route_free(self.routes@, n.0 as int, a as int));
                }
            }
        }
        Ok(a)
    }

    /// The two simulators hold the same networks, machines, commands and routes.
    pub open spec fn same_tables(self, other: Simulator) -> bool {
        &&& self.nets() == other.nets()
        &&& self.machs() == other.machs()
        &&& self.cmds() == other.cmds()
        &&& self.route_table() == other.route_table()
    }

    /// What `add_nat_route` does: refuse unknown networks, refuse a pair that
    /// has a route already, refuse a full global network, else give the NAT
    /// the lowest free host address of the global network and append the
    /// route.
    pub open spec fn route_added(
        self,
        next: Simulator,
        behavior: NatBehavior,
        global: NetworkId,
        local: NetworkId,
        r: Result<u32, TopologyError>,
    ) -> bool {
        &&& next.nets() == self.nets()
        &&& next.machs() == self.machs()
        &&& next.cmds() == self.cmds()
        &&& next.entered_ns() == self.entered_ns()
        &&& if global.0 >= self.nets().len() || local.0 >= self.nets().len() {
            r == Err::<u32, TopologyError>(TopologyError::UnknownNetwork) && next.route_table()
                == self.route_table()
        } else if pair_routed(self.route_table(), global.0 as int, local.0 as int) {
            r == Err::<u32, TopologyError>(TopologyError::RouteConflict) && next.route_table()
                == self.route_table()
        } else if range_full(self.nets(), self.machs(), self.route_table(), global.0 as int) {
            r == Err::<u32, TopologyError>(TopologyError::RangeFull) && next.route_table()
                == self.route_table()
        } else {
            (r matches Ok(a) && lowest_free(
                self.nets(),
                self.machs(),
                self.route_table(),
                global.0 as int,
                a as int,
            ) && next.route_table() == self.route_table().push(
                NatRoute { global: global.0, local: local.0, behavior, public_addr: a },
            ))
        }
    }

    /// Installs a NAT route from `local` to `global` with a fixed behaviour;
    /// returns the address the NAT holds in the global network.
    pub fn add_nat_route(&mut self, behavior: NatBehavior, global: NetworkId, local: NetworkId) -> (r: Result<u32, TopologyError>)
        requires
            old(self).wf(),
        ensures
            final(self).wf(),
            old(self).route_added(*final(self), behavior, global, local, r),
    {
        if global.0 >= self.networks.len() || local.0 >= self.networks.len() {
            return Err(TopologyError::UnknownNetwork);
        }
        if self.route_behavior(global, local).is_some() {
            return Err(TopologyError::RouteConflict);
        }
        let found = self.find_free_host(global.0);
        let a = match found {
            Some(a) => a,
            None => {
                return Err(TopologyError::RangeFull);
            },
        };
        let ghost old_routes = self.routes@;
        let ghost old_cursors = self.cursors@;
        let ghost ms = self.machines@;
        let route = NatRoute { global: global.0, local: local.0, behavior, public_addr: a };
        self.routes.push(route);
        self.cursors.set(global.0, a as u64 + 1);
        proof {
            let rs = self.routes@;
            let nets = self.networks@;
            assert forall|i: int| 0 <= i < old_routes.len() implies #[trigger] rs[i] == old_routes[i] by {}
            assert(rs[old_routes.len() as int] == route);
            assert forall|k: int, b: int| #![auto] addr_free(ms, rs, k, b) ==> addr_free(ms, old_routes, k, b) by {
                if addr_free(ms, rs, k, b) {
                    assert forall|i: int| 0 <= i < old_routes.len() implies !((#[trigger] old_routes[i]).global
                        == k as usize && old_routes[i].public_addr == b) by {
                        assert(rs[i] == old_routes[i]);
                    }
                }
            }
            assert(!addr_free(ms, rs, global.0 as int, a as int));
            assert forall|k: int| 0 <= k < nets.len() implies {
                &&& nets[k].range.lo() + 1 <= #[trigger] self.cursors@[k] <= nets[k].range.hi()
                &&& forall|b: int|
                    nets[k].range.lo() + 1 < b < self.cursors@[k] ==> !#[trigger] addr_free(ms, rs, k, b)
            } by {
                assert(old_cursors[k] <= self.cursors@[k]);
                assert forall|b: int| nets[k].range.lo() + 1 < b < self.cursors@[k] implies !#[trigger] addr_free(ms, rs, k, b) by {
                    if b < old_cursors[k] {
                        assert(!addr_free(ms, old_routes, k, b));
                    } else if b != a || k != global.0 {
                        assert(k == global.0 && b < a);
                        assert(nets[k].range.is_host(b));
                        assert(!addr_free(ms, old_routes, k, b));
                    }
                }
            }
            assert forall|r: int| 0 <= r < rs.len() implies nets[(#[trigger] rs[r]).global as int].range.is_host(
                rs[r].public_addr as int,
            ) by {
                if r < old_routes.len() {
                    assert(rs[r] == old_routes[r]);
                }
            }
            assert forall|m: int, r: int|
                0 <= m < ms.len() && 0 <= r < rs.len() && (#[trigger] ms[m]).net == Some(
                    (#[trigger] rs[r]).global,
                ) implies ms[m].addr != rs[r].public_addr by {
                if r < old_routes.len() {
                    assert(rs[r] == old_routes[r]);
                } else {
                    assert(host_free(ms, global.0 as int, a as int));
                }
            }
            assert forall|r1: int, r2: int|
                0 <= r1 < r2 < rs.len() && (#[trigger] rs[r1]).global == (#[trigger] rs[r2]).global
                    implies rs[r1].public_addr != rs[r2].public_addr by {
                assert(rs[r1] == old_routes[r1]);
                if r2 < old_routes.len() {
                    assert(rs[r2] == old_routes[r2]);
                } else {
                    assert(route_free(old_routes, global.0 as int, a as int));
                }
            }
            assert forall|r1: int, r2: int|
                0 <= r1 < r2 < rs.len() implies !((#[trigger] rs[r1]).global == (#[trigger] rs[r2]).global
                    && rs[r1].local == rs[r2].local) by {
                assert(rs[r1] == old_routes[r1]);
                if r2 < old_routes.len() {
                    assert(rs[r2] == old_routes[r2]);
                }
            }
        }
        Ok(a)
    }

    /// The route from `local` to `global`, if there is one.
    pub fn route(&self, global: NetworkId, local: NetworkId) -> (r: Option<NatRoute>)
        requires
            self.wf(),
        ensures
            r is None <==> !pair_routed(self.route_table(), global.0 as int, local.0 as int),
            r matches Some(x) ==> x.global == global.0 && x.local == local.0 && self.route_table().contains(x),
    {
        let mut i: usize = 0;
        while i < self.routes.len()
            invariant
                i <= self.routes@.len(),
                forall|j: int|
                    0 <= j < i ==> !((#[trigger] self.routes@[j]).global == global.0
                        && self.routes@[j].local == local.0),
            decreases self.routes@.len() - i,
        {
            let route = self.routes[i];
            if route.global == global.0 && route.local == local.0 {
                proof {
                    assert(self.routes@[i as int] == route);
                }
                return Some(route);
            }
            i = i + 1;
        }
        None
    }

    /// How many networks there are.
    pub fn network_count(&self) -> (r: usize)
        ensures
            r == self.nets().len(),
    {
        self.networks.len()
    }

    /// The behaviour of the route from `local` to `global`, if there is one.
    pub fn route_behavior(&self, global: NetworkId, local: NetworkId) -> (r: Option<NatBehavior>)
        requires
            self.wf(),
        ensures
            r is None <==> !pair_routed(self.route_table(), global.0 as int, local.0 as int),
            r matches Some(b) ==> exists|i: int|
                0 <= i < self.route_table().len() && (#[trigger] self.route_table()[i]).global == global.0
                    && self.route_table()[i].local == local.0 && self.route_table()[i].behavior == b,
    {
        let mut i: usize = 0;
        while i < self.routes.len()
            invariant
                i <= self.routes@.len(),
                forall|j: int|
                    0 <= j < i ==> !((#[trigger] self.routes@[j]).global == global.0
                        && self.routes@[j].local == local.0),
            decreases self.routes@.len() - i,
        {
            let route = self.routes[i];
            if route.global == global.0 && route.local == local.0 {
                return Some(route.behavior);
            }
            i = i + 1;
        }
        None
    }

    /// What `enter_namespace` does: refuse an unknown or exited machine,
    /// refuse while another namespace is entered, else enter.
    pub open spec fn namespace_entered(self, next: Simulator, m: MachineId, r: Result<(), ProcessError>) -> bool {
        &&& next.same_tables(self)
        &&& if m.0 >= self.machs().len() || !self.machs()[m.0 as int].alive {
            r == Err::<(), ProcessError>(ProcessError::NamespaceUnavailable) && next.entered_ns()
                == self.entered_ns()
        } else if self.entered_ns() is Some {
            r == Err::<(), ProcessError>(ProcessError::NamespaceBusy) && next.entered_ns()
                == self.entered_ns()
        } else {
            r == Ok::<(), ProcessError>(()) && next.entered_ns() == Some(m.0)
        }
    }

    /// Switches into the namespace of machine `m`; at most one namespace is
    /// entered at a time.
    pub fn enter_namespace(&mut self, m: MachineId) -> (r: Result<(), ProcessError>)
        requires
            old(self).wf(),
        ensures
            final(self).wf(),
            old(self).namespace_entered(*final(self), m, r),
    {
        if m.0 >= self.machines.len() || !self.machines[m.0].alive {
            return Err(ProcessError::NamespaceUnavailable);
        }
        if self.entered.is_some() {
            return Err(ProcessError::NamespaceBusy);
        }
        self.entered = Some(m.0);
        Ok(())
    }

    /// Leaves the entered namespace, if any, and says which it was.
    pub fn exit_namespace(&mut self) -> (r: Option<MachineId>)
        requires
            old(self).wf(),
        ensures
            final(self).wf(),
            final(self).same_tables(*old(self)),
            final(self).entered_ns() is None,
            r == (match old(self).entered_ns() {
                Some(m) => Some(MachineId(m)),
                None => None::<MachineId>,
            }),
    {
        let r = match self.entered {
            Some(m) => Some(MachineId(m)),
            None => None,
        };
        self.entered = None;
        r
    }

    /// The machine whose namespace is entered, if any.
    pub fn entered(&self) -> (r: Option<MachineId>)
        ensures
            r == (match self.entered_ns() {
                Some(m) => Some(MachineId(m)),
                None => None::<MachineId>,
            }),
    {
        match self.entered {
            Some(m) => Some(MachineId(m)),
            None => None,
        }
    }

    /// Records that the process of machine `m` has exited.
    pub fn machine_exited(&mut self, m: MachineId) -> (r: Result<(), TopologyError>)
        requires
            old(self).wf(),
        ensures
            final(self).wf(),
            final(self).nets() == old(self).nets(),
            final(self).cmds() == old(self).cmds(),
            final(self).route_table() == old(self).route_table(),
            final(self).entered_ns() == old(self).entered_ns(),
            m.0 >= old(self).machs().len() ==> r == Err::<(), TopologyError>(TopologyError::UnknownMachine)
                && final(self).machs() == old(self).machs(),
            m.0 < old(self).machs().len() ==> r is Ok && final(self).machs() == old(self).machs().update(
                m.0 as int,
                Machine { alive: false, ..old(self).machs()[m.0 as int] },
            ),
    {
        if m.0 >= self.machines.len() {
            return Err(TopologyError::UnknownMachine);
        }
        let ghost old_ms = self.machines@;
        let rec = self.machines[m.0];
        self.machines.set(m.0, Machine { alive: false, ..rec });
        proof {
            let ms = self.machines@;
            assert forall|i: int| 0 <= i < ms.len() && i != m.0 implies #[trigger] ms[i] == old_ms[i] by {}
            assert(ms == old_ms.update(m.0 as int, Machine { alive: false, ..old_ms[m.0 as int] }));
            lemma_same_hosts(old_ms, m.0 as int, Machine { alive: false, ..old_ms[m.0 as int] });
            assert forall|k: int, a: int| #![auto] host_free(ms, k, a) == host_free(old_ms, k, a) by {}
            assert forall|k: int, a: int| #![auto] addr_free(ms, self.routes@, k, a) == addr_free(old_ms, self.routes@, k, a) by {}
            assert forall|m1: int, m2: int|
                0 <= m1 < ms.len() && 0 <= m2 < ms.len() && m1 != m2 && (#[trigger] ms[m1]).net is Some
                    && ms[m1].net == (#[trigger] ms[m2]).net implies ms[m1].addr != ms[m2].addr by {
                assert(old_ms[m1].net == ms[m1].net && old_ms[m1].addr == ms[m1].addr);
                assert(old_ms[m2].net == ms[m2].net && old_ms[m2].addr == ms[m2].addr);
            }
            assert forall|mm: int, r: int|
                0 <= mm < ms.len() && 0 <= r < self.routes@.len() && (#[trigger] ms[mm]).net == Some(
                    (#[trigger] self.routes@[r]).global,
                ) implies ms[mm].addr != self.routes@[r].public_addr by {
                assert(old_ms[mm].net == ms[mm].net && old_ms[mm].addr == ms[mm].addr);
            }
        }
        Ok(())
    }

    /// The control port the next machine will get, if one is left.
    pub fn next_port(&self) -> (r: Option<u16>)
        requires
            self.wf(),
        ensures
            self.machs().len() < 65536 - FIRST_PORT ==> r == Some((FIRST_PORT + self.machs().len()) as u16),
            self.machs().len() >= 65536 - FIRST_PORT ==> r is None,
    {
        let n = self.machines.len();
        if n >= (65536 - FIRST_PORT as usize) {
            None
        } else {
            Some(FIRST_PORT + n as u16)
        }
    }

    /// The address of machine `m` in the network it is plugged into.
    pub fn machine_address(&self, m: MachineId) -> (r: Result<u32, TopologyError>)
        requires
            self.wf(),
        ensures
            m.0 >= self.machs().len() ==> r == Err::<u32, TopologyError>(TopologyError::UnknownMachine),
            m.0 < self.machs().len() && self.machs()[m.0 as int].net is None ==> r == Err::<u32, TopologyError>(TopologyError::Unplugged),
            m.0 < self.machs().len() && self.machs()[m.0 as int].net is Some ==> r == Ok::<u32, TopologyError>(self.machs()[m.0 as int].addr),
    {
        if m.0 >= self.machines.len() {
            return Err(TopologyError::UnknownMachine);
        }
        let rec = self.machines[m.0];
        if rec.net.is_none() {
            return Err(TopologyError::Unplugged);
        }
        Ok(rec.addr)
    }

    /// The network that machine `m` is plugged into.
    pub fn machine_network(&self, m: MachineId) -> (r: Result<NetworkId, TopologyError>)
        requires
            self.wf(),
        ensures
            m.0 >= self.machs().len() ==> r == Err::<NetworkId, TopologyError>(TopologyError::UnknownMachine),
            m.0 < self.machs().len() ==> r == (match self.machs()[m.0 as int].net {
                Some(n) => Ok::<NetworkId, TopologyError>(NetworkId(n)),
                None => Err(TopologyError::Unplugged),
            }),
    {
        if m.0 >= self.machines.len() {
            return Err(TopologyError::UnknownMachine);
        }
        match self.machines[m.0].net {
            Some(n) => Ok(NetworkId(n)),
            None => Err(TopologyError::Unplugged),
        }
    }

    /// The control port of machine `m`.
    pub fn machine_port(&self, m: MachineId) -> (r: Result<u16, TopologyError>)
        requires
            self.wf(),
        ensures
            m.0 >= self.machs().len() ==> r == Err::<u16, TopologyError>(TopologyError::UnknownMachine),
            m.0 < self.machs().len() ==> r == Ok::<u16, TopologyError>(self.machs()[m.0 as int].port),
    {
        if m.0 >= self.machines.len() {
            return Err(TopologyError::UnknownMachine);
        }
        Ok(self.machines[m.0].port)
    }

    /// The command that machine `m` runs.
    pub fn machine_command(&self, m: MachineId) -> (r: Result<String, TopologyError>)
        requires
            self.wf(),
        ensures
            m.0 >= self.machs().len() ==> r == Err::<String, TopologyError>(TopologyError::UnknownMachine),
            m.0 < self.machs().len() ==> (r matches Ok(c) && c@ == self.cmds()[m.0 as int]),
    {
        if m.0 >= self.commands.len() {
            return Err(TopologyError::UnknownMachine);
        }
        Ok(self.commands[m.0].clone())
    }

    /// The range of network `n`.
    pub fn network_range(&self, n: NetworkId) -> (r: Result<Ipv4Range, TopologyError>)
        requires
            self.wf(),
        ensures
            n.0 >= self.nets().len() ==> r == Err::<Ipv4Range, TopologyError>(TopologyError::UnknownNetwork),
            n.0 < self.nets().len() ==> r == Ok::<Ipv4Range, TopologyError>(self.nets()[n.0 as int].range),
    {
        if n.0 >= self.networks.len() {
            return Err(TopologyError::UnknownNetwork);
        }
        Ok(self.networks[n.0].range)
    }

    /// A machine plugged into `net` directly, running `command`, at the
    /// lowest free host address of `net`.
    pub fn spawn_node(&mut self, net: NetworkId, command: String) -> (r: Result<Node, SimError>)
        requires
            old(self).wf(),
        ensures
            final(self).wf(),
            final(self).nets() == old(self).nets(),
            final(self).route_table() == old(self).route_table(),
            final(self).entered_ns() == old(self).entered_ns(),
            net.0 >= old(self).nets().len() ==> r == Err::<Node, SimError>(SimError::Topology(TopologyError::UnknownNetwork)),
            net.0 < old(self).nets().len() && range_full(old(self).nets(), old(self).machs(), old(self).route_table(), net.0 as int)
                ==> r == Err::<Node, SimError>(SimError::Topology(TopologyError::RangeFull)),
            net.0 < old(self).nets().len() && !range_full(old(self).nets(), old(self).machs(), old(self).route_table(), net.0 as int)
                && old(self).machs().len() >= 65536 - FIRST_PORT ==> r == Err::<Node, SimError>(SimError::Process(ProcessError::SpawnFailed)),
            net.0 < old(self).nets().len() && !range_full(old(self).nets(), old(self).machs(), old(self).route_table(), net.0 as int)
                && old(self).machs().len() < 65536 - FIRST_PORT ==> r is Ok,
            r is Err ==> final(self).machs() == old(self).machs() && final(self).cmds() == old(self).cmds(),
            r matches Ok(node) ==> {
                &&& node.machine == MachineId(old(self).machs().len() as usize)
                &&& node.local_net is None
                &&& node.global_net == Some(net)
                &&& node.port == FIRST_PORT + old(self).machs().len()
                &&& lowest_free(old(self).nets(), old(self).machs(), old(self).route_table(), net.0 as int, node.addr as int)
                &&& final(self).machs() == old(self).machs().push(
                    Machine { port: node.port, net: Some(net.0), addr: node.addr, alive: true },
                )
                &&& final(self).cmds() == old(self).cmds().push(command@)
            },
    {
        if net.0 >= self.networks.len() {
            return Err(SimError::Topology(TopologyError::UnknownNetwork));
        }
        if self.find_free_host(net.0).is_none() {
            return Err(SimError::Topology(TopologyError::RangeFull));
        }
        let ghost old_ms = self.machines@;
        let res3 = self.spawn_machine(command);
        let machine = match res3 {
            Ok(m) => m,
            Err(e) => {
                return Err(SimError::Process(e));
            },
        };
        proof {
            lemma_push_unplugged(old_ms, self.machines@[machine.0 as int]);
            assert(self.machines@ == old_ms.push(self.machines@[machine.0 as int]));
            assert forall|k: int, a: int| #![auto] addr_free(self.machines@, self.routes@, k, a) == addr_free(old_ms, self.routes@, k, a) by {}
        }
        let res4 = self.plug(machine, net, None);
        let addr = match res4 {
            Ok(a) => a,
            Err(e) => {
                return Err(SimError::Topology(e));
            },
        };
        let port: u16 = FIRST_PORT + machine.0 as u16;
        proof {
            assert(self.machines@ =~= old_ms.push(Machine { port, net: Some(net.0), addr, alive: true }));
        }
        Ok(Node { machine, local_net: None, global_net: Some(net), addr, port })
    }

    /// Two distinct blocks are free.
    pub open spec fn two_free_blocks(nets: Seq<Network>) -> bool {
        exists|k1: int, k2: int|
            0 <= k1 < k2 < BLOCK_COUNT && #[trigger] block_free(nets, k1) && #[trigger] block_free(nets, k2)
    }

    proof fn lemma_fresh_network(&self, n: int)
        requires
            self.wf(),
            n == self.nets().len() - 1,
            n >= 0,
            self.nets()[n].range.size() >= 4,
            forall|i: int| 0 <= i < self.machs().len() ==> (#[trigger] self.machs()[i]).net != Some(n as usize),
            forall|r: int| 0 <= r < self.route_table().len() ==> (#[trigger] self.route_table()[r]).global != n as usize,
        ensures
            forall|a: int| #![auto] addr_free(self.machs(), self.route_table(), n, a),
            self.nets()[n].range.is_host(self.nets()[n].range.lo() + 2),
            !range_full(self.nets(), self.machs(), self.route_table(), n),
    {
        let ms = self.machines@;
        assert forall|a: int| #![auto] host_free(ms, n, a) by {
            assert forall|i: int| 0 <= i < ms.len() implies !((#[trigger] ms[i]).net == Some(n as usize)
                && ms[i].addr == a) by {
                assert(self.machs()[i].net != Some(n as usize));
            }
        }
        assert forall|a: int| #![auto] route_free(self.route_table(), n, a) by {
            assert forall|r: int| 0 <= r < self.route_table().len() implies !((#[trigger] self.route_table()[r]).global
                == n as usize && self.route_table()[r].public_addr == a) by {}
        }
        assert(self.nets()[n].range.is_host(self.nets()[n].range.lo() + 2));
    }

    /// A machine plugged into a fresh carved network, the lowest free block
    /// of `10.0.0.0/8`, at that block's first host address.
    pub fn spawn_global_node(&mut self, command: String) -> (r: Result<Node, SimError>)
        requires
            old(self).wf(),
        ensures
            final(self).wf(),
            final(self).route_table() == old(self).route_table(),
            final(self).entered_ns() == old(self).entered_ns(),
            old(self).machs().len() >= 65536 - FIRST_PORT ==> r == Err::<Node, SimError>(SimError::Process(ProcessError::SpawnFailed)),
            old(self).machs().len() < 65536 - FIRST_PORT ==> (r is Err <==> forall|j: int|
                0 <= j < BLOCK_COUNT ==> !#[trigger] block_free(old(self).nets(), j)),
            old(self).machs().len() < 65536 - FIRST_PORT && r is Err ==> r == Err::<Node, SimError>(SimError::Topology(TopologyError::RangeExhausted)),
            r is Err ==> final(self).same_tables(*old(self)),
            r matches Ok(node) ==> {
                &&& node.machine == MachineId(old(self).machs().len() as usize)
                &&& node.local_net is None
                &&& node.global_net == Some(NetworkId(old(self).nets().len() as usize))
                &&& node.port == FIRST_PORT + old(self).machs().len()
                &&& exists|k: int| #![auto] Self::lowest_free_block(old(self).nets(), k)
                    && final(self).nets() == old(self).nets().push(Network { range: carved_block(k), carved: true })
                    && node.addr == carved_block(k).lo() + 2
                &&& final(self).machs() == old(self).machs().push(
                    Machine { port: node.port, net: Some(node.global_net.unwrap().0), addr: node.addr, alive: true },
                )
                &&& final(self).cmds() == old(self).cmds().push(command@)
            },
    {
        if self.machines.len() >= (65536 - FIRST_PORT as usize) {
            return Err(SimError::Process(ProcessError::SpawnFailed));
        }
        let ghost old_nets = self.networks@;
        let count = self.networks.len();
        let res5 = self.spawn_network(None);
        let net = match res5 {
            Ok(n) => n,
            Err(e) => {
                return Err(SimError::Topology(e));
            },
        };
        proof {
            assert(net.0 == count);
        }
        let ghost k = choose|k: int| #![auto] Self::lowest_free_block(old_nets, k)
            && self.nets() == old_nets.push(Network { range: carved_block(k), carved: true });
        proof {
            assert forall|i: int| 0 <= i < self.machs().len() implies (#[trigger] self.machs()[i]).net != Some(net.0) by {
                assert(self.machs()[i] == old(self).machs()[i]);
            }
            assert forall|r: int| 0 <= r < self.route_table().len() implies (#[trigger] self.route_table()[r]).global != net.0 by {
                assert(self.route_table()[r] == old(self).route_table()[r]);
            }
            lemma_carved_block(k);
            assert(self.networks@[net.0 as int] == Network { range: carved_block(k), carved: true });
            self.lemma_fresh_network(net.0 as int);
        }
        let r = self.spawn_node(net, command);
        match r {
            Ok(node) => {
                proof {
                    let lo = carved_block(k).lo();
                    assert(self.nets()[net.0 as int].range.is_host(lo + 2));
                    assert(addr_free(old(self).machs(), old(self).route_table(), net.0 as int, lo + 2));
                }
                Ok(node)
            },
            Err(e) => {
                proof {
                    assert(false);
                }
                Err(e)
            },
        }
    }

    /// Adds the first route of a fresh global network; the NAT gets the
    /// network's first host address.
    fn add_first_route(&mut self, b: NatBehavior, global: NetworkId, local: NetworkId) -> (a: u32)
        requires
            old(self).wf(),
            global.0 < old(self).nets().len(),
            local.0 < old(self).nets().len(),
            old(self).nets()[global.0 as int].range.size() >= 4,
            forall|i: int| 0 <= i < old(self).machs().len() ==> (#[trigger] old(self).machs()[i]).net != Some(global.0),
            forall|r: int| 0 <= r < old(self).route_table().len() ==> (#[trigger] old(self).route_table()[r]).global != global.0
                && old(self).route_table()[r].local != local.0,
        ensures
            final(self).wf(),
            final(self).nets() == old(self).nets(),
            final(self).machs() == old(self).machs(),
            final(self).cmds() == old(self).cmds(),
            final(self).entered_ns() == old(self).entered_ns(),
            a == old(self).nets()[global.0 as int].range.lo() + 2,
            final(self).route_table() == old(self).route_table().push(
                NatRoute { global: global.0, local: local.0, behavior: b, public_addr: a },
            ),
    {
        proof {
            let ms = self.machines@;
            let rs = self.routes@;
            let g = global.0 as int;
            assert forall|a: int| #![auto] addr_free(ms, rs, g, a) by {
                assert forall|i: int| 0 <= i < ms.len() implies !((#[trigger] ms[i]).net == Some(g as usize)
                    && ms[i].addr == a) by {
                    assert(old(self).machs()[i].net != Some(global.0));
                }
                assert forall|r: int| 0 <= r < rs.len() implies !((#[trigger] rs[r]).global == g as usize
                    && rs[r].public_addr == a) by {
                    assert(old(self).route_table()[r].global != global.0);
                }
            }
            lemma_all_free(self.nets(), ms, rs, g);
        }
        let res = self.add_nat_route(b, global, local);
        match res {
            Ok(a) => a,
            Err(_) => {
                proof {
                    assert(false);
                }
                0
            },
        }
    }

    /// A machine behind a NAT: fresh carved global and local networks, the
    /// machine plugged into the local one at its first host address, and a
    /// route between them with the given behaviour, symmetric by default.
    #[verifier::rlimit(100)]
    pub fn spawn_nat_node(&mut self, command: String, behavior: Option<NatBehavior>) -> (r: Result<Node, SimError>)
        requires
            old(self).wf(),
        ensures
            final(self).wf(),
            final(self).entered_ns() == old(self).entered_ns(),
            old(self).machs().len() >= 65536 - FIRST_PORT ==> r == Err::<Node, SimError>(SimError::Process(ProcessError::SpawnFailed))
                && final(self).same_tables(*old(self)),
            old(self).machs().len() < 65536 - FIRST_PORT ==> (r is Err <==> !Self::two_free_blocks(old(self).nets())),
            old(self).machs().len() < 65536 - FIRST_PORT && r is Err ==> r == Err::<Node, SimError>(SimError::Topology(TopologyError::RangeExhausted)),
            r is Err ==> final(self).same_tables(*old(self)),
            r matches Ok(node) ==> {
                &&& node.machine == MachineId(old(self).machs().len() as usize)
                &&& node.global_net == Some(NetworkId(old(self).nets().len() as usize))
                &&& node.local_net == Some(NetworkId((old(self).nets().len() + 1) as usize))
                &&& node.port == FIRST_PORT + old(self).machs().len()
                &&& exists|k1: int, k2: int| #![auto] Self::lowest_free_block(old(self).nets(), k1)
                    && Self::lowest_free_block(old(self).nets().push(Network { range: carved_block(k1), carved: true }), k2)
                    && final(self).nets() == old(self).nets().push(Network { range: carved_block(k1), carved: true }).push(
                        Network { range: carved_block(k2), carved: true })
                    && node.addr == carved_block(k2).lo() + 2
                &&& final(self).machs() == old(self).machs().push(
                    Machine { port: node.port, net: Some(node.local_net.unwrap().0), addr: node.addr, alive: true },
                )
                &&& final(self).cmds() == old(self).cmds().push(command@)
                &&& final(self).route_table() == old(self).route_table().push(
                    NatRoute {
                        global: node.global_net.unwrap().0,
                        local: node.local_net.unwrap().0,
                        behavior: match behavior {
                            Some(b) => b,
                            None => crate::behavior::class_behavior(crate::behavior::NatClass::Symmetric),
                        },
                        public_addr: (final(self).nets()[old(self).nets().len() as int].range.lo() + 2) as u32,
                    },
                )
            },
    {
        if self.machines.len() >= (65536 - FIRST_PORT as usize) {
            return Err(SimError::Process(ProcessError::SpawnFailed));
        }
        let ghost nets0 = self.networks@;
        let first = self.find_free_block();
        let k1e = match first {
            Some(k) => k,
            None => {
                proof {
                    if Self::two_free_blocks(nets0) {
                        let (a, b) = choose|a: int, b: int|
                            0 <= a < b < BLOCK_COUNT && #[trigger] block_free(nets0, a) && #[trigger] block_free(nets0, b);
                        assert(!block_free(nets0, a));
                    }
                }
                return Err(SimError::Topology(TopologyError::RangeExhausted));
            },
        };
        let second = self.scan_blocks(k1e + 1);
        let k2e = match second {
            Some(k) => k,
            None => {
                proof {
                    if Self::two_free_blocks(nets0) {
                        let (a, b) = choose|a: int, b: int|
                            0 <= a < b < BLOCK_COUNT && #[trigger] block_free(nets0, a) && #[trigger] block_free(nets0, b);
                        assert(k1e <= a);
                        assert(!block_free(nets0, b));
                    }
                }
                return Err(SimError::Topology(TopologyError::RangeExhausted));
            },
        };
        let res6 = self.spawn_network(None);
        let global = match res6 {
            Ok(n) => n,
            Err(e) => {
                proof {
                    assert(block_free(nets0, k1e as int));
                }
                return Err(SimError::Topology(e));
            },
        };
        let ghost k1 = choose|k: int| #![auto] Self::lowest_free_block(nets0, k)
            && self.nets() == nets0.push(Network { range: carved_block(k), carved: true });
        let ghost nets1 = self.networks@;
        let count = self.networks.len();
        let res7 = self.spawn_network(None);
        let local = match res7 {
            Ok(n) => n,
            Err(e) => {
                proof {
                    assert(k1 == k1e) by {
                        if k1 < k1e {
                            assert(!block_free(nets0, k1));
                        }
                        if k1e < k1 {
                            assert(!block_free(nets0, k1e as int));
                        }
                    }
                    let x = Network { range: carved_block(k1), carved: true };
                    lemma_blocks_disjoint(k1, k2e as int);
                    assert forall|i: int| 0 <= i < nets1.len() implies (#[trigger] nets1[i]).range.disjoint(
                        carved_block(k2e as int),
                    ) by {
                        if i < nets0.len() {
                            assert(nets1[i] == nets0[i]);
                        } else {
                            assert(nets1[i] == x);
                        }
                    }
                    assert(block_free(nets1, k2e as int));
                }
                return Err(SimError::Topology(e));
            },
        };
        proof {
            assert(local.0 == count);
        }
        let ghost k2 = choose|k: int| #![auto] Self::lowest_free_block(nets1, k)
            && self.nets() == nets1.push(Network { range: carved_block(k), carved: true });
        proof {
            assert forall|i: int| 0 <= i < self.machs().len() implies (#[trigger] self.machs()[i]).net != Some(local.0) by {
                assert(self.machs()[i] == old(self).machs()[i]);
            }
            assert forall|r: int| 0 <= r < self.route_table().len() implies (#[trigger] self.route_table()[r]).global != local.0 by {
                assert(self.route_table()[r] == old(self).route_table()[r]);
            }
            lemma_carved_block(k1);
            lemma_carved_block(k2);
            lemma_block_free_push(nets0, Network { range: carved_block(k1), carved: true }, k2);
            if k1 == k2 {
                assert(nets1[nets0.len() as int] == Network { range: carved_block(k1), carved: true });
                assert(!nets1[nets0.len() as int].range.disjoint(carved_block(k2)));
            }
            if k1 < k2 {
                assert(block_free(nets0, k1) && block_free(nets0, k2));
            } else {
                assert(block_free(nets0, k2) && block_free(nets0, k1));
            }
            assert(Self::two_free_blocks(nets0));
            assert(self.networks@[local.0 as int] == Network { range: carved_block(k2), carved: true });
            self.lemma_fresh_network(local.0 as int);
        }
        let res8 = self.spawn_node(local, command);
        let node = match res8 {
            Ok(node) => node,
            Err(e) => {
                proof {
                    assert(false);
                }
                return Err(e);
            },
        };
        proof {
            let lo = carved_block(k2).lo();
            assert(self.nets()[local.0 as int].range.is_host(lo + 2));
            assert(addr_free(old(self).machs(), old(self).route_table(), local.0 as int, lo + 2));
        }
        let b = match behavior {
            Some(b) => b,
            None => NatBehavior::symmetric(),
        };
        proof {
            let ms = self.machines@;
            assert forall|i: int| 0 <= i < ms.len() implies (#[trigger] ms[i]).net != Some(global.0) by {
                if i < old(self).machs().len() {
                    assert(ms[i] == old(self).machs()[i]);
                }
            }
            assert forall|r: int| 0 <= r < self.routes@.len() implies (#[trigger] self.routes@[r]).global != global.0
                && self.routes@[r].local != local.0 by {
                assert(self.routes@[r] == old(self).route_table()[r]);
            }
        }
        let _ = self.add_first_route(b, global, local);
        Ok(Node { machine: node.machine, local_net: Some(local), global_net: Some(global), addr: node.addr, port: node.port })
    }
}

/// Networks whose ranges the simulator carved are pairwise disjoint.
pub proof fn lemma_carved_ranges_disjoint(s: Simulator, i: int, j: int)
    requires
        s.wf(),
        0 <= i < s.nets().len(),
        0 <= j < s.nets().len(),
        i != j,
        s.nets()[i].carved,
        s.nets()[j].carved,
    ensures
        s.nets()[i].range.disjoint(s.nets()[j].range),
{
    let nets = s.nets();
    if i < j {
        assert(nets[i].range.disjoint(nets[j].range));
    } else {
        assert(nets[j].range.disjoint(nets[i].range));
    }
}

/// Two machines plugged into one network hold distinct host addresses of
/// that network's range.
pub proof fn lemma_plugged_addresses_distinct(s: Simulator, m1: int, m2: int)
    requires
        s.wf(),
        0 <= m1 < s.machs().len(),
        0 <= m2 < s.machs().len(),
        m1 != m2,
        s.machs()[m1].net is Some,
        s.machs()[m1].net == s.machs()[m2].net,
    ensures
        s.machs()[m1].addr != s.machs()[m2].addr,
        s.nets()[s.machs()[m1].net.unwrap() as int].range.is_host(s.machs()[m1].addr as int),
        s.nets()[s.machs()[m2].net.unwrap() as int].range.is_host(s.machs()[m2].addr as int),
{
    let ms = s.machs();
    assert(ms[m1].addr != ms[m2].addr);
}

/// Once a route for a pair of networks is added, adding one again for the
/// same pair fails with a route conflict and keeps the first behaviour.
pub proof fn lemma_route_never_overwritten(
    s0: Simulator,
    s1: Simulator,
    s2: Simulator,
    b1: NatBehavior,
    b2: NatBehavior,
    global: NetworkId,
    local: NetworkId,
    a1: u32,
    r2: Result<u32, TopologyError>,
)
    requires
        s0.route_added(s1, b1, global, local, Ok(a1)),
        s1.route_added(s2, b2, global, local, r2),
    ensures
        r2 == Err::<u32, TopologyError>(TopologyError::RouteConflict),
        s2.route_table() == s1.route_table(),
        s2.route_table().last() == (NatRoute { global: global.0, local: local.0, behavior: b1, public_addr: a1 }),
{
    let rs = s1.route_table();
    let last = rs.len() - 1;
    assert(rs[last] == NatRoute { global: global.0, local: local.0, behavior: b1, public_addr: a1 });
    assert(pair_routed(rs, global.0 as int, local.0 as int));
}

/// While a namespace is entered, entering any namespace fails and leaves
/// the entered one in place: at most one is entered at any time.
pub proof fn lemma_namespace_exclusive(s0: Simulator, s1: Simulator, m: MachineId, r: Result<(), ProcessError>)
    requires
        s0.namespace_entered(s1, m, r),
        s0.entered_ns() is Some,
    ensures
        r is Err,
        s1.entered_ns() == s0.entered_ns(),
{
}

/// A plugged machine names an existing network, at a host address of it;
/// a NAT route joins existing networks, and the NAT's address is a host
/// address of the global one.
pub proof fn lemma_attachments_known(s: Simulator)
    requires
        s.wf(),
    ensures
        forall|m: int|
            0 <= m < s.machs().len() ==> ((#[trigger] s.machs()[m]).net matches Some(n) ==> n < s.nets().len()
                && s.nets()[n as int].range.is_host(s.machs()[m].addr as int)),
        forall|r: int|
            0 <= r < s.route_table().len() ==> (#[trigger] s.route_table()[r]).global < s.nets().len()
                && s.route_table()[r].local < s.nets().len() && s.nets()[s.route_table()[r].global as int].range.is_host(
                s.route_table()[r].public_addr as int,
            ),
{
}

} // verus!
