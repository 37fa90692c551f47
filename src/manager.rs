use vstd::prelude::*;

verus! {

/// A peer of the cluster: its numeric id and its network address.
#[derive(Debug, Clone, PartialEq, Eq)]
pub struct Server {
    pub id: u64,
    pub addr: String,
}

impl Server {
    /// A copy of the peer.
    pub fn duplicate(&self) -> (r: Server)
        ensures
            r == *self,
    {
        Server { id: self.id, addr: self.addr.clone() }
    }
}

/// A source of the current list of peers.
pub trait ServerDetect {
    fn fetch(&self) -> Vec<Server>;
}

/// Whether a server with id `me` should open a connection to peer `peer`: only towards lower
/// ids, and only when not connected yet.
pub open spec fn should_connect(me: u64, peer: u64, connected: Seq<u64>) -> bool {
    peer < me && !connected.contains(peer)
}

/// The peers among `peers` to connect to, in their order.
pub open spec fn to_connect(me: u64, peers: Seq<Server>, connected: Seq<u64>) -> Seq<Server>
    decreases peers.len(),
{
    if peers.len() == 0 {
        Seq::empty()
    } else {
        to_connect(me, peers.drop_last(), connected) + if should_connect(
            me,
            peers.last().id,
            connected,
        ) {
            seq![peers.last()]
        } else {
            Seq::empty()
        }
    }
}

fn contains_id(ids: &Vec<u64>, id: u64) -> (r: bool)
    ensures
        r == ids@.contains(id),
{
    let mut i: usize = 0;
    while i < ids.len()
        invariant
            i <= ids.len(),
            forall|j: int| 0 <= j < i ==> ids@[j] != id,
        decreases ids.len() - i,
    {
        if ids[i] == id {
            return true;
        }
        i = i + 1;
    }
    false
}

/// The peers of `fetched` that server `me` should connect to now, given the ids it is already
/// connected to.
pub fn peers_to_connect(me: u64, fetched: &Vec<Server>, connected: &Vec<u64>) -> (r: Vec<Server>)
    ensures
        r@ == to_connect(me, fetched@, connected@),
{
    let mut out: Vec<Server> = Vec::new();
    let mut i: usize = 0;
    while i < fetched.len()
        invariant
            i <= fetched.len(),
            out@ == to_connect(me, fetched@.take(i as int), connected@),
        decreases fetched.len() - i,
    {
        assert(fetched@.take(i + 1).drop_last() =~= fetched@.take(i as int));
        let s = &fetched[i];
        if s.id < me && !contains_id(connected, s.id) {
            out.push(s.duplicate());
        }
        assert(out@ =~= to_connect(me, fetched@.take(i + 1), connected@));
        i = i + 1;
    }
    assert(fetched@.take(i as int) =~= fetched@);
    out
}

/// Keeps a server connected to its peers of lower id.
pub struct ServerManager<D: ServerDetect> {
    server_id: u64,
    peer_detect: D,
}

impl<D: ServerDetect> ServerManager<D> {
    pub closed spec fn id(&self) -> u64 {
        self.server_id
    }

    /// The detector that the manager asks for peers.
    pub closed spec fn detector(&self) -> D {
        self.peer_detect
    }

    pub fn new(server_id: u64, detect: D) -> (r: Self)
        ensures
            r.id() == server_id,
            r.detector() == detect,
    {
        ServerManager { server_id, peer_detect: detect }
    }

    /// Asks the detector for the peers and returns those to connect to now: each of lower id
    /// than this server and not among `connected`. Some peer list `fetched` came back, and
    /// the result is its selection.
    pub fn refresh(&self, connected: &Vec<u64>) -> (r: Vec<Server>)
        ensures
            exists|fetched: Seq<Server>| r@ == to_connect(self.id(), fetched, connected@),
    {
        let fetched = self.peer_detect.fetch();
        let r = peers_to_connect(self.server_id, &fetched, connected);
        assert(r@ == to_connect(self.id(), fetched@, connected@));
        r
    }
}

/// A detector whose peer list is replaced from outside.
pub struct SimpleServerDetector {
    peers: Vec<Server>,
}

impl SimpleServerDetector {
    pub closed spec fn peers(&self) -> Seq<Server> {
        self.peers@
    }

    pub fn new() -> (r: Self)
        ensures
            r.peers() == Seq::<Server>::empty(),
    {
        SimpleServerDetector { peers: Vec::new() }
    }

    /// Replaces the peer list with the given (id, address) pairs, in order.
    pub fn update_peer_view(&mut self, peer_view: Vec<(u64, String)>)
        ensures
            final(self).peers().len() == peer_view@.len(),
            forall|i: int|
                0 <= i < peer_view@.len() ==> #[trigger] final(self).peers()[i] == (Server {
                    id: peer_view@[i].0,
                    addr: peer_view@[i].1,
                }),
    {
        let mut peers: Vec<Server> = Vec::new();
        let mut rest = peer_view;
        let ghost all = rest@;
        let mut i: usize = 0;
        let n = rest.len();
        while i < n
            invariant
                n == all.len(),
                i <= n,
                peers@.len() == i,
                forall|j: int|
                    0 <= j < i ==> #[trigger] peers@[j] == (Server {
                        id: all[j].0,
                        addr: all[j].1,
                    }),
                rest@ == all.subrange(i as int, n as int),
            decreases n - i,
        {
            let (id, addr) = rest.remove(0);
            peers.push(Server { id, addr });
            i = i + 1;
            assert(rest@ =~= all.subrange(i as int, n as int));
        }
        self.peers = peers;
    }
}

impl SimpleServerDetector {
    /// A copy of the current peer list.
    pub fn snapshot(&self) -> (r: Vec<Server>)
        ensures
            r@ == self.peers(),
    {
        copy_servers(&self.peers)
    }
}

/// A copy of a peer list.
pub fn copy_servers(servers: &Vec<Server>) -> (r: Vec<Server>)
    ensures
        r@ == servers@,
{
    let mut out: Vec<Server> = Vec::new();
    let mut i: usize = 0;
    while i < servers.len()
        invariant
            i <= servers.len(),
            out@ == servers@.take(i as int),
        decreases servers.len() - i,
    {
        out.push(servers[i].duplicate());
        i = i + 1;
        assert(out@ =~= servers@.take(i as int));
    }
    assert(servers@.take(i as int) =~= servers@);
    out
}

impl ServerDetect for Vec<Server> {
    fn fetch(&self) -> Vec<Server> {
        copy_servers(self)
    }
}

impl ServerDetect for SimpleServerDetector {
    fn fetch(&self) -> Vec<Server> {
        self.snapshot()
    }
}

} // verus!
