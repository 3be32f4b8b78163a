//! How the programs on one network find each other: each announces itself, hears
//! the others, answers those it did not know, and forgets those that fall silent.

use crate::address::{address_text, parse_address};
use crate::effects::text_view;
use crate::registry::Registry;
use crate::text::trim;
use vstd::prelude::*;

verus! {

/// The group that announcements go to.
pub const MULTICAST_ADDR: [u8; 4] = [224, 0, 0, 167];

/// The address that reaches everyone where the group does not.
pub const BROADCAST_ADDR: [u8; 4] = [255, 255, 255, 255];

/// The UDP port on which announcements are heard.
pub const DISCOVERY_PORT: u16 = 53317;

/// A peer that has not been heard for this many nanoseconds is forgotten.
pub const PEER_TIMEOUT: u64 = 8_000_000_000;

/// Who someone on the network is, as they announce it. The address is not part of
/// the announcement: whoever hears it knows where it came from.
#[derive(Debug)]
pub struct PeerInfo {
    pub id: String,
    pub name: String,
    pub port: u16,
    pub ip: Option<String>,
}

/// Who someone on the network is.
pub struct Peer {
    pub id: Seq<char>,
    pub name: Seq<char>,
    pub port: u16,
    pub ip: Option<Seq<char>>,
}

impl View for PeerInfo {
    type V = Peer;

    open spec fn view(&self) -> Peer {
        Peer { id: self.id@, name: self.name@, port: self.port, ip: text_view(self.ip) }
    }
}

impl Clone for PeerInfo {
    fn clone(&self) -> (copy: PeerInfo)
        ensures
            copy@ == self@,
    {
        let ip = match &self.ip {
            Some(ip) => Some(ip.clone()),
            None => None,
        };
        PeerInfo { id: self.id.clone(), name: self.name.clone(), port: self.port, ip }
    }
}

/// A peer, and when it was last heard, in nanoseconds.
#[derive(Debug)]
pub struct Sighting {
    pub info: PeerInfo,
    pub last_seen: u64,
}

/// What one program knows of the network: itself, and the peers by identifier.
pub struct DiscoveryState {
    pub id: String,
    pub name: String,
    pub port: u16,
    pub peers: Registry<Sighting>,
}

/// What one program knows of the network.
pub struct Network {
    pub id: Seq<char>,
    pub name: Seq<char>,
    pub port: u16,
    /// The peers, and when each was last heard.
    pub peers: Map<Seq<char>, (Peer, u64)>,
}

impl View for DiscoveryState {
    type V = Network;

    open spec fn view(&self) -> Network {
        Network {
            id: self.id@,
            name: self.name@,
            port: self.port,
            peers: self.peers@.map_values(|s: Sighting| (s.info@, s.last_seen)),
        }
    }
}

impl Network {
    /// The program itself, as it announces itself.
    pub open spec fn own(self) -> Peer {
        Peer { id: self.id, name: self.name, port: self.port, ip: None }
    }

    /// Every peer is kept under its own identifier and with its address, and the
    /// program itself is not among the peers.
    pub open spec fn is_sound(self) -> bool {
        &&& !self.peers.contains_key(self.id)
        &&& forall|id: Seq<char>| #[trigger]
            self.peers.contains_key(id) ==> self.peers[id].0.id == id && self.peers[id].0.ip is Some
    }

    /// What is known once `peer` has been heard from `ip`. One's own voice is
    /// passed over.
    pub open spec fn after_hearing(self, peer: Peer, ip: Seq<char>, now: u64) -> Network {
        if peer.id == self.id {
            self
        } else {
            Network {
                peers: self.peers.insert(peer.id, (Peer { ip: Some(ip), ..peer }, now)),
                ..self
            }
        }
    }

    /// Whether `peer` is somebody new, who gets an answer.
    pub open spec fn is_news(self, peer: Peer) -> bool {
        peer.id != self.id && !self.peers.contains_key(peer.id)
    }

    /// Whether peer `id` has been heard lately enough to be kept at `now`.
    pub open spec fn is_fresh(self, id: Seq<char>, now: u64) -> bool {
        now - self.peers[id].1 < PEER_TIMEOUT
    }

    /// What is known once those that have fallen silent are forgotten.
    pub open spec fn after_pruning(self, now: u64) -> Network {
        Network {
            peers: self.peers.restrict(
                self.peers.dom().filter(|id: Seq<char>| self.is_fresh(id, now)),
            ),
            ..self
        }
    }
}

/// What the list of peers shows: the peers, in the order in which they are kept,
/// and the program itself behind them.
pub open spec fn peer_list(s: DiscoveryState) -> Seq<Peer> {
    Seq::new(s.peers.ids().len(), |i: int| s@.peers[s.peers.ids()[i]].0).push(s@.own())
}

/// What infos say, one after the other.
pub open spec fn infos_view(infos: Seq<PeerInfo>) -> Seq<Peer> {
    infos.map_values(|info: PeerInfo| info@)
}

/// `peer` is who `info` says, in every respect.
pub open spec fn is_info(peer: Peer, info: PeerInfo) -> bool {
    &&& peer.id == info.id@
    &&& peer.name == info.name@
    &&& peer.port == info.port
    &&& peer.ip is Some <==> info.ip is Some
    &&& info.ip matches Some(ip) ==> peer.ip == Some(ip@)
}

/// Some entry of `list` but the last says what `info` says.
pub open spec fn is_listed(list: Seq<Peer>, info: PeerInfo) -> bool {
    exists|i: int| 0 <= i < list.len() - 1 && is_info(#[trigger] list[i], info)
}

/// `peer` is one of those that are kept.
pub open spec fn is_kept(peers: Map<Seq<char>, Sighting>, peer: Peer) -> bool {
    exists|id: Seq<char>| #[trigger] peers.contains_key(id) && is_info(peer, peers[id].info)
}

/// Every peer that is kept stands in the list as it is kept: under its own identifier and
/// name, with its port and its address. Nobody else stands there, but for the program
/// itself at the end, without an address.
pub proof fn every_peer_is_listed(s: DiscoveryState)
    requires
        forall|id: Seq<char>| #[trigger] s.peers@.contains_key(id) <==> s.peers.ids().contains(id),
    ensures
        peer_list(s).len() == s.peers.ids().len() + 1,
        forall|id: Seq<char>| #[trigger]
            s.peers@.contains_key(id) ==> is_listed(peer_list(s), s.peers@[id].info),
        forall|i: int|
            0 <= i < peer_list(s).len() - 1 ==> is_kept(s.peers@, #[trigger] peer_list(s)[i]),
        ({
            let own = peer_list(s).last();
            own.id == s.id@ && own.name == s.name@ && own.port == s.port && own.ip is None
        }),
{
    let ids = s.peers.ids();
    let list = peer_list(s);
    assert forall|id: Seq<char>| #[trigger] s.peers@.contains_key(id) implies is_listed(
        list,
        s.peers@[id].info,
    ) by {
        let i = choose|i: int| 0 <= i < ids.len() && ids[i] == id;
        assert(is_info(list[i], s.peers@[id].info));
    }
    assert forall|i: int| 0 <= i < list.len() - 1 implies is_kept(
        s.peers@,
        #[trigger] list[i],
    ) by {
        assert(ids.contains(ids[i]));
        assert(s.peers@.contains_key(ids[i]));
        assert(is_info(list[i], s.peers@[ids[i]].info));
    }
}

/// The list of peers, with the program itself at its end.
pub fn build_peer_list(s: &DiscoveryState) -> (list: Vec<PeerInfo>)
    ensures
        infos_view(list@) == peer_list(*s),
        s.peers.ids().no_duplicates(),
        forall|id: Seq<char>| #[trigger] s@.peers.contains_key(id) <==> s.peers.ids().contains(id),
        forall|id: Seq<char>| #[trigger] s.peers@.contains_key(id) <==> s.peers.ids().contains(id),
        list@.len() == s.peers.ids().len() + 1,
        forall|i: int|
            #![trigger list@[i]]
            0 <= i < list@.len() - 1 ==> {
                let kept = s.peers@[s.peers.ids()[i]].info;
                &&& list@[i].id@ == kept.id@
                &&& list@[i].name@ == kept.name@
                &&& list@[i].port == kept.port
                &&& list@[i].ip is Some <==> kept.ip is Some
                &&& list@[i].ip is Some ==> list@[i].ip->0@ == kept.ip->0@
            },
        ({
            let own = list@[list@.len() - 1];
            own.id@ == s.id@ && own.name@ == s.name@ && own.port == s.port && own.ip is None
        }),
{
    let n: usize = s.peers.len();
    let mut list: Vec<PeerInfo> = Vec::new();
    let mut i: usize = 0;
    while i < n
        invariant
            i <= n == s.peers.ids().len(),
            list@.len() == i,
            forall|id: Seq<char>| #[trigger]
                s.peers@.contains_key(id) <==> s.peers.ids().contains(id),
            forall|j: int|
                0 <= j < i ==> (#[trigger] list@[j])@ == s.peers@[s.peers.ids()[j]].info@,
            forall|j: int|
                0 <= j < i ==> (#[trigger] list@[j])@ == s@.peers[s.peers.ids()[j]].0,
        decreases n - i,
    {
        proof {
            assert(s.peers.ids().contains(s.peers.ids()[i as int]));
            assert(s.peers@.contains_key(s.peers.ids()[i as int]));
        }
        list.push(s.peers.value_at(i).info.clone());
        i += 1;
    }
    list.push(s.own_info());
    proof {
        assert(infos_view(list@) == peer_list(*s));
    }
    list
}

/// What follows when somebody new has been heard.
pub struct Greeting {
    /// The new list of peers, for the user.
    pub peers: Vec<PeerInfo>,
    /// The answer, for the one who was heard.
    pub reply: PeerInfo,
}

impl DiscoveryState {
    /// A program that knows nobody yet.
    pub fn new(id: String, name: String, port: u16) -> (s: DiscoveryState)
        ensures
            s@ == (Network { id: id@, name: name@, port, peers: Map::empty() }),
            s@.is_sound(),
    {
        let s = DiscoveryState { id, name, port, peers: Registry::new() };
        proof {
            assert(s@.peers =~= Map::<Seq<char>, (Peer, u64)>::empty());
        }
        s
    }

    /// The program itself, as it announces itself.
    pub fn own_info(&self) -> (info: PeerInfo)
        ensures
            info@ == self@.own(),
    {
        PeerInfo { id: self.id.clone(), name: self.name.clone(), port: self.port, ip: None }
    }

    /// An announcement has been heard from the address `ip`.
    pub fn heard(&mut self, peer: PeerInfo, ip: String, now: u64) -> (greeting: Option<Greeting>)
        ensures
            final(self)@ == old(self)@.after_hearing(peer@, ip@, now),
            old(self)@.is_sound() ==> final(self)@.is_sound(),
            greeting is Some <==> old(self)@.is_news(peer@),
            greeting matches Some(g) ==> {
                &&& infos_view(g.peers@) == peer_list(*final(self))
                &&& forall|id: Seq<char>| #[trigger]
                    final(self).peers@.contains_key(id) <==> final(self).peers.ids().contains(id)
                &&& g.reply@ == old(self)@.own()
            },
    {
        let ghost before = self@;
        if peer.id == self.id {
            return None;
        }
        let known: bool = self.peers.contains(&peer.id);
        let id = peer.id.clone();
        let info = PeerInfo { id: peer.id, name: peer.name, port: peer.port, ip: Some(ip) };
        let _ = self.peers.insert(id, Sighting { info, last_seen: now });
        proof {
            assert(self@.peers =~= before.after_hearing(peer@, ip@, now).peers);
        }
        if known {
            None
        } else {
            Some(Greeting { peers: build_peer_list(self), reply: self.own_info() })
        }
    }

    /// Forgets those that have fallen silent.
    pub fn prune(&mut self, now: u64)
        ensures
            final(self)@ == old(self)@.after_pruning(now),
            old(self)@.is_sound() ==> final(self)@.is_sound(),
    {
        let ghost before = self@;
        let ghost map = self.peers@;
        let fresh = |s: &Sighting| -> (b: bool)
            ensures
                b == (now - s.last_seen < PEER_TIMEOUT),
            { now.saturating_sub(s.last_seen) < PEER_TIMEOUT };
        self.peers.retain(fresh);
        proof {
            let after = self.peers@;
            assert forall|id: Seq<char>|
                after.contains_key(id) == before.after_pruning(now).peers.contains_key(id) by {
                if map.contains_key(id) {
                    assert(before.peers[id] == (map[id].info@, map[id].last_seen));
                }
            }
            assert(self@.peers =~= before.after_pruning(now).peers);
        }
    }
}

/// Remembers which program this is.
pub fn set_self_id(self_id: &mut Option<String>, id: String)
    ensures
        *final(self_id) == Some(id),
{
    *self_id = Some(id);
}

/// Begins discovery, unless it runs already. `running` says whether it does, and
/// it does from now on, unless beginning it fails. Where it ran already nothing new is begun: the programs
/// that are there are announced to at once instead.
pub fn start_discovery_loop(running: &mut bool, id: String, name: String, port: u16) -> (begun:
    Option<DiscoveryState>)
    ensures
        *final(running),
        begun is None <==> *old(running),
        begun matches Some(s) ==> s@ == (Network {
            id: id@,
            name: name@,
            port,
            peers: Map::empty(),
        }),
{
    if *running {
        return None;
    }
    *running = true;
    Some(DiscoveryState::new(id, name, port))
}

/// Discovery could not be begun after all, so it does not run, and can be begun again.
pub fn discovery_failed(running: &mut bool)
    ensures
        !*final(running),
{
    *running = false;
}

/// Who the program is once it has been asked to begin discovery: who it was, where
/// discovery runs already, else somebody new.
pub open spec fn id_in_use(running: bool, own: Option<Seq<char>>, fresh: Seq<char>) -> Seq<char> {
    match own {
        Some(id) => if running {
            id
        } else {
            fresh
        },
        None => fresh,
    }
}

/// The identifier that the program goes by, once it has been asked to begin discovery.
/// `self_id` is the one that it went by before, `fresh` a new one.
pub fn own_id(running: bool, self_id: &Option<String>, fresh: String) -> (id: String)
    ensures
        id@ == id_in_use(running, text_view(*self_id), fresh@),
{
    match self_id {
        Some(id) => if running {
            id.clone()
        } else {
            fresh
        },
        None => fresh,
    }
}

/// The address of an interface of this machine.
#[derive(Clone, Copy, Debug, PartialEq, Eq)]
pub enum InterfaceAddress {
    V4([u8; 4]),
    V6([u8; 16]),
}

/// Whether announcements go out by way of `address`: it is of version four and does
/// not lead back to this machine.
pub open spec fn leads_out(address: InterfaceAddress) -> bool {
    address matches InterfaceAddress::V4(ip) && ip@[0] != 127
}

/// The addresses in `list` that lead out.
pub open spec fn ways_out(list: Seq<InterfaceAddress>) -> Seq<[u8; 4]>
    decreases list.len(),
{
    if list.len() == 0 {
        Seq::empty()
    } else {
        let before = ways_out(list.drop_last());
        if leads_out(list.last()) {
            before.push(list.last()->V4_0)
        } else {
            before
        }
    }
}

/// The ways out are those addresses of the list that lead out: none leads back to this
/// machine, and none that leads out is left out.
pub proof fn every_way_out_is_used(list: Seq<InterfaceAddress>)
    ensures
        forall|k: int| 0 <= k < ways_out(list).len() ==> (#[trigger] ways_out(list)[k])@[0] != 127,
        forall|i: int|
            0 <= i < list.len() && leads_out(#[trigger] list[i]) ==> ways_out(list).contains(
                list[i]->V4_0,
            ),
    decreases list.len(),
{
    if list.len() > 0 {
        let init = list.drop_last();
        let before = ways_out(init);
        let all = ways_out(list);
        every_way_out_is_used(init);
        assert forall|k: int| 0 <= k < all.len() implies (#[trigger] all[k])@[0] != 127 by {
            if k < before.len() {
                assert(all[k] == before[k]);
            }
        }
        assert forall|i: int| 0 <= i < list.len() && leads_out(#[trigger] list[i]) implies all.contains(
            list[i]->V4_0,
        ) by {
            if i < init.len() {
                assert(init[i] == list[i]);
                let k = choose|k: int| 0 <= k < before.len() && before[k] == list[i]->V4_0;
                assert(all[k] == list[i]->V4_0);
            } else {
                assert(all[all.len() - 1] == list[i]->V4_0);
            }
        }
    }
}

/// The addresses in `list` by way of which announcements go out.
pub fn local_ipv4_interfaces(list: &[InterfaceAddress]) -> (ips: Vec<[u8; 4]>)
    ensures
        ips@ == ways_out(list@),
{
    let mut ips: Vec<[u8; 4]> = Vec::new();
    let mut i: usize = 0;
    while i < list.len()
        invariant
            i <= list@.len(),
            ips@ == ways_out(list@.take(i as int)),
        decreases list@.len() - i,
    {
        proof {
            assert(list@.take(i + 1).drop_last() == list@.take(i as int));
            assert(list@.take(i + 1).last() == list@[i as int]);
        }
        match list[i] {
            InterfaceAddress::V4(ip) => {
                if ip[0] != 127 {
                    ips.push(ip);
                }
            },
            InterfaceAddress::V6(_) => {},
        }
        i += 1;
    }
    proof {
        assert(list@.take(i as int) == list@);
    }
    ips
}

/// One copy of an announcement.
#[derive(Clone, Copy, Debug, PartialEq, Eq)]
pub struct Packet {
    /// The interface that it goes out by, if it is not left to the system.
    pub via: Option<[u8; 4]>,
    /// Where it goes.
    pub to: [u8; 4],
}

/// The copies of an announcement: one to the group by way of each interface, and
/// one to everyone; or where no interface is known, one to the group.
pub open spec fn copies(interfaces: Seq<[u8; 4]>) -> Seq<Packet> {
    if interfaces.len() == 0 {
        seq![Packet { via: None, to: MULTICAST_ADDR }]
    } else {
        interfaces.map_values(|ip: [u8; 4]| Packet { via: Some(ip), to: MULTICAST_ADDR }).push(
            Packet { via: None, to: BROADCAST_ADDR },
        )
    }
}

/// The copies of an announcement that go out by way of `interfaces`.
pub fn announcement(interfaces: &[[u8; 4]]) -> (packets: Vec<Packet>)
    ensures
        packets@ == copies(interfaces@),
{
    let mut packets: Vec<Packet> = Vec::new();
    if interfaces.len() == 0 {
        packets.push(Packet { via: None, to: MULTICAST_ADDR });
        proof {
            assert(packets@ == copies(interfaces@));
        }
        return packets;
    }
    let mut i: usize = 0;
    while i < interfaces.len()
        invariant
            i <= interfaces@.len(),
            packets@.len() == i,
            forall|j: int|
                0 <= j < i ==> #[trigger] packets@[j] == (Packet {
                    via: Some(interfaces@[j]),
                    to: MULTICAST_ADDR,
                }),
        decreases interfaces@.len() - i,
    {
        packets.push(Packet { via: Some(interfaces[i]), to: MULTICAST_ADDR });
        i += 1;
    }
    packets.push(Packet { via: None, to: BROADCAST_ADDR });
    proof {
        assert(packets@ == copies(interfaces@));
    }
    packets
}

/// How many announcements make a burst.
pub const BURST: u8 = 5;

/// How the program announces itself: a burst at first, then at a steady pace, and
/// in a burst again whenever the user asks for it.
#[derive(Clone, Copy, Debug, PartialEq, Eq, Structural)]
pub enum Announcer {
    /// So many announcements of the first burst have been made.
    Opening(u8),
    /// At a steady pace.
    Steady,
    /// So many announcements of a burst that was asked for have been made.
    Asked(u8),
}

/// What goes with one announcement.
#[derive(Clone, Copy, Debug, PartialEq, Eq, Structural)]
pub struct Round {
    /// Whether those that have fallen silent are forgotten now, and the user sees
    /// the list.
    pub prune: bool,
    /// How long the wait after it is, in milliseconds.
    pub wait: u64,
    /// Whether the user can cut it short.
    pub wakes: bool,
}

impl Announcer {
    /// What goes with the present announcement.
    pub open spec fn round_spec(self) -> Round {
        match self {
            Announcer::Opening(_) => Round { prune: false, wait: 400, wakes: false },
            Announcer::Steady => Round { prune: true, wait: 2000, wakes: true },
            Announcer::Asked(_) => Round { prune: false, wait: 200, wakes: false },
        }
    }

    /// Where the announcer is after the wait. `asked` says whether the user cut it
    /// short.
    pub open spec fn after(self, asked: bool) -> Announcer {
        match self {
            Announcer::Opening(k) => if k + 1 < BURST {
                Announcer::Opening((k + 1) as u8)
            } else {
                Announcer::Steady
            },
            Announcer::Steady => if asked {
                Announcer::Asked(0)
            } else {
                Announcer::Steady
            },
            Announcer::Asked(k) => if k + 1 < BURST {
                Announcer::Asked((k + 1) as u8)
            } else {
                Announcer::Steady
            },
        }
    }

    /// An announcer before its first announcement.
    pub fn new() -> (a: Announcer)
        ensures
            a == Announcer::Opening(0),
    {
        Announcer::Opening(0)
    }

    /// What goes with the present announcement.
    pub fn round(&self) -> (round: Round)
        ensures
            round == self.round_spec(),
    {
        match self {
            Announcer::Opening(_) => Round { prune: false, wait: 400, wakes: false },
            Announcer::Steady => Round { prune: true, wait: 2000, wakes: true },
            Announcer::Asked(_) => Round { prune: false, wait: 200, wakes: false },
        }
    }

    /// Where the announcer is after the wait.
    pub fn next(self, asked: bool) -> (a: Announcer)
        ensures
            a == self.after(asked),
    {
        match self {
            Announcer::Opening(k) => if k < BURST - 1 {
                Announcer::Opening(k + 1)
            } else {
                Announcer::Steady
            },
            Announcer::Steady => if asked {
                Announcer::Asked(0)
            } else {
                Announcer::Steady
            },
            Announcer::Asked(k) => if k < BURST - 1 {
                Announcer::Asked(k + 1)
            } else {
                Announcer::Steady
            },
        }
    }

    /// The announcer after `n` more waits that nobody cuts short.
    pub open spec fn after_rounds(self, n: nat) -> Announcer
        decreases n,
    {
        if n == 0 {
            self
        } else {
            self.after_rounds((n - 1) as nat).after(false)
        }
    }
}

/// Both bursts have five announcements, and the steady pace comes after them.
pub proof fn a_burst_has_five_announcements(k: nat)
    requires
        k <= 5,
    ensures
        Announcer::Opening(0).after_rounds(k) == if k < 5 {
            Announcer::Opening(k as u8)
        } else {
            Announcer::Steady
        },
        Announcer::Steady.after(true).after_rounds(k) == if k < 5 {
            Announcer::Asked(k as u8)
        } else {
            Announcer::Steady
        },
    decreases k,
{
    if k > 0 {
        a_burst_has_five_announcements((k - 1) as nat);
    }
}

/// Why an address that the user typed in cannot be tried.
#[derive(Clone, Copy, Debug, PartialEq, Eq, Structural)]
pub enum ProbeError {
    /// Discovery has not begun.
    NotStarted,
    /// It is not known yet who this program is.
    NotReady,
    /// The text is not the text of an address.
    BadAddress,
}

impl ProbeError {
    /// The message for the user.
    pub open spec fn text(self) -> Seq<char> {
        match self {
            ProbeError::NotStarted => "Keşif henüz başlatılmadı."@,
            ProbeError::NotReady => "Kendi kimliğimiz henüz hazır değil."@,
            ProbeError::BadAddress => "Geçersiz IP adresi."@,
        }
    }

    /// The message for the user.
    pub fn message(&self) -> (text: &'static str)
        ensures
            text@ == self.text(),
    {
        match self {
            ProbeError::NotStarted => "Keşif henüz başlatılmadı.",
            ProbeError::NotReady => "Kendi kimliğimiz henüz hazır değil.",
            ProbeError::BadAddress => "Geçersiz IP adresi.",
        }
    }
}

/// An announcement to one address.
pub struct Probe {
    pub to: [u8; 4],
    pub info: PeerInfo,
}

/// Whether `text` is the text of some address.
pub open spec fn is_address(text: Seq<char>) -> bool {
    exists|ip: Seq<u8>| ip.len() == 4 && text == #[trigger] address_text(ip)
}

/// The announcement to the address that the user typed in. `listening` says whether
/// discovery has begun, `info` who this program is.
pub fn probe_peer_ip(listening: bool, info: Option<&PeerInfo>, target_ip: &str) -> (probe: Result<
    Probe,
    ProbeError,
>)
    ensures
        probe matches Ok(p) ==> {
            &&& listening
            &&& info matches Some(i)
            &&& p.info@ == i@
            &&& trim(target_ip@) == address_text(p.to@)
        },
        probe == Err::<Probe, ProbeError>(ProbeError::NotStarted) <==> !listening,
        probe == Err::<Probe, ProbeError>(ProbeError::NotReady) <==> listening && info is None,
        probe == Err::<Probe, ProbeError>(ProbeError::BadAddress) <==> listening && info is Some
            && !is_address(trim(target_ip@)),
{
    if !listening {
        return Err(ProbeError::NotStarted);
    }
    match info {
        None => Err(ProbeError::NotReady),
        Some(info) => match parse_address(target_ip) {
            Some(to) => {
                proof {
                    assert(to@.len() == 4 && trim(target_ip@) == address_text(to@));
                }
                Ok(Probe { to, info: info.clone() })
            },
            None => Err(ProbeError::BadAddress),
        },
    }
}

/// Two programs find each other from one announcement: the one that hears it and
/// did not know the other answers, and when the answer is heard, each has the
/// other among its peers, with the address that it was heard from.
pub proof fn one_announcement_is_enough(
    a: Network,
    b: Network,
    ip_of_a: Seq<char>,
    ip_of_b: Seq<char>,
    now: u64,
    later: u64,
)
    requires
        a.id != b.id,
    ensures
        ({
            let b2 = b.after_hearing(a.own(), ip_of_a, now);
            let a2 = a.after_hearing(b.own(), ip_of_b, later);
            &&& b.is_news(a.own()) <==> !b.peers.contains_key(a.id)
            &&& b2.peers.contains_key(a.id)
            &&& b2.peers[a.id] == (Peer { ip: Some(ip_of_a), ..a.own() }, now)
            &&& a2.peers.contains_key(b.id)
            &&& a2.peers[b.id] == (Peer { ip: Some(ip_of_b), ..b.own() }, later)
        }),
{
}

/// A peer is answered once: as long as it has not been forgotten, it is no news.
pub proof fn a_peer_is_news_once(
    s: Network,
    peer: Peer,
    ip: Seq<char>,
    now: u64,
    other: Peer,
    other_ip: Seq<char>,
    later: u64,
)
    ensures
        !s.after_hearing(peer, ip, now).is_news(peer),
        !s.after_hearing(peer, ip, now).after_hearing(other, other_ip, later).is_news(peer),
{
}

/// A peer that has been heard lately enough is kept as it is. One that has been
/// silent for too long is forgotten, and news when it is heard again.
pub proof fn the_silent_are_forgotten(s: Network, peer: Peer, now: u64)
    requires
        s.is_sound(),
        s.peers.contains_key(peer.id),
    ensures
        ({
            let pruned = s.after_pruning(now);
            if now - s.peers[peer.id].1 < PEER_TIMEOUT {
                pruned.peers.contains_key(peer.id) && pruned.peers[peer.id] == s.peers[peer.id]
            } else {
                !pruned.peers.contains_key(peer.id) && pruned.is_news(peer)
            }
        }),
{
}

/// Neither hearing somebody nor forgetting somebody brings the program itself among
/// its peers, or a peer in without its address or under another identifier.
pub proof fn the_network_stays_sound(s: Network, peer: Peer, ip: Seq<char>, now: u64)
    requires
        s.is_sound(),
    ensures
        s.after_hearing(peer, ip, now).is_sound(),
        s.after_pruning(now).is_sound(),
{
}

/// What is known of a peer is what was announced, with the address that it was heard from
/// and the time; nothing else that is known changes, and one's own voice changes nothing.
pub proof fn hearing_somebody_changes_one_entry(
    s: Network,
    peer: Peer,
    ip: Seq<char>,
    now: u64,
    other: Seq<char>,
)
    requires
        other != peer.id,
    ensures
        ({
            let next = s.after_hearing(peer, ip, now);
            &&& next.id == s.id && next.name == s.name && next.port == s.port
            &&& next.peers.contains_key(other) == s.peers.contains_key(other)
            &&& s.peers.contains_key(other) ==> next.peers[other] == s.peers[other]
            &&& peer.id != s.id ==> {
                &&& next.peers.contains_key(peer.id)
                &&& next.peers[peer.id].0.id == peer.id
                &&& next.peers[peer.id].0.name == peer.name
                &&& next.peers[peer.id].0.port == peer.port
                &&& next.peers[peer.id].0.ip == Some(ip)
                &&& next.peers[peer.id].1 == now
            }
            &&& peer.id == s.id ==> next == s
        }),
{
}

/// Who a program says it is, is who it is: its identifier, its name and its port, and no
/// address.
pub proof fn a_program_announces_itself(s: DiscoveryState)
    ensures
        s@.own().id == s.id@,
        s@.own().name == s.name@,
        s@.own().port == s.port,
        s@.own().ip is None,
{
}

/// A state is seen with the peers that it keeps, each as it was announced.
pub proof fn a_state_is_seen_as_it_is(s: DiscoveryState, id: Seq<char>)
    ensures
        s@.id == s.id@ && s@.name == s.name@ && s@.port == s.port,
        s@.peers.contains_key(id) == s.peers@.contains_key(id),
        s.peers@.contains_key(id) ==> is_info(s@.peers[id].0, s.peers@[id].info) && s@.peers[id].1
            == s.peers@[id].last_seen,
{
}

/// Forgetting keeps exactly those that have been heard in the last eight seconds, as they
/// are, and changes nothing else.
pub proof fn eight_seconds_of_silence_are_enough(s: Network, id: Seq<char>, now: u64)
    ensures
        ({
            let next = s.after_pruning(now);
            &&& next.id == s.id && next.name == s.name && next.port == s.port
            &&& next.peers.contains_key(id) <==> s.peers.contains_key(id) && now - s.peers[id].1
                < 8_000_000_000
            &&& next.peers.contains_key(id) ==> next.peers[id] == s.peers[id]
        }),
{
}

/// Where interfaces are known, an announcement goes to the group by way of each of them and
/// once to everyone, and nowhere else. Where none is known it goes to the group, by
/// whatever way the system takes.
pub proof fn announcements_go_out_by_every_interface(interfaces: Seq<[u8; 4]>)
    ensures
        forall|i: int|
            0 <= i < interfaces.len() ==> exists|k: int|
                0 <= k < copies(interfaces).len() && (#[trigger] copies(interfaces)[k]).via == Some(
                    #[trigger] interfaces[i],
                ) && copies(interfaces)[k].to == MULTICAST_ADDR,
        interfaces.len() > 0 ==> exists|k: int|
            0 <= k < copies(interfaces).len() && (#[trigger] copies(interfaces)[k]).to
                == BROADCAST_ADDR && copies(interfaces)[k].via is None,
        interfaces.len() > 0 ==> copies(interfaces).len() == interfaces.len() + 1,
        forall|k: int|
            0 <= k < copies(interfaces).len() ==> {
                let packet = #[trigger] copies(interfaces)[k];
                ||| packet.to == MULTICAST_ADDR && packet.via is Some && interfaces.contains(
                    packet.via->0,
                )
                ||| packet.to == BROADCAST_ADDR && packet.via is None && interfaces.len() > 0
                ||| packet.to == MULTICAST_ADDR && packet.via is None && interfaces.len() == 0
            },
        interfaces.len() == 0 ==> copies(interfaces).len() == 1,
{
    let all = copies(interfaces);
    assert forall|i: int| 0 <= i < interfaces.len() implies exists|k: int|
        0 <= k < all.len() && (#[trigger] all[k]).via == Some(#[trigger] interfaces[i])
            && all[k].to == MULTICAST_ADDR by {
        assert(all[i].via == Some(interfaces[i]));
    }
    if interfaces.len() > 0 {
        assert(all[interfaces.len() as int].to == BROADCAST_ADDR);
    }
    assert forall|k: int| 0 <= k < all.len() implies {
        let packet = #[trigger] all[k];
        ||| packet.to == MULTICAST_ADDR && packet.via is Some && interfaces.contains(packet.via->0)
        ||| packet.to == BROADCAST_ADDR && packet.via is None && interfaces.len() > 0
        ||| packet.to == MULTICAST_ADDR && packet.via is None && interfaces.len() == 0
    } by {
        if k < interfaces.len() {
            assert(all[k].via == Some(interfaces[k]));
        }
    }
}

/// Every way out comes from the list of interfaces, and as many are used as lead out.
pub proof fn ways_out_come_from_the_list(list: Seq<InterfaceAddress>)
    ensures
        ways_out(list).len() <= list.len(),
        forall|k: int|
            0 <= k < ways_out(list).len() ==> list.contains(
                InterfaceAddress::V4(#[trigger] ways_out(list)[k]),
            ),
        (forall|i: int|
            0 <= i < list.len() ==> ((#[trigger] list[i]) matches InterfaceAddress::V4(ip)
                && ip@[0] != 127)) ==> ways_out(list).len() == list.len(),
    decreases list.len(),
{
    if list.len() > 0 {
        let init = list.drop_last();
        let before = ways_out(init);
        let all = ways_out(list);
        ways_out_come_from_the_list(init);
        assert forall|k: int| 0 <= k < all.len() implies list.contains(
            InterfaceAddress::V4(#[trigger] all[k]),
        ) by {
            if k < before.len() {
                assert(all[k] == before[k]);
                let j = choose|j: int| 0 <= j < init.len() && init[j] == InterfaceAddress::V4(
                    before[k],
                );
                assert(list[j] == init[j]);
            } else {
                assert(list[list.len() - 1] == InterfaceAddress::V4(all[k]));
            }
        }
        if forall|i: int|
            0 <= i < list.len() ==> ((#[trigger] list[i]) matches InterfaceAddress::V4(ip)
                && ip@[0] != 127) {
            assert forall|i: int| 0 <= i < init.len() implies ((#[trigger] init[i])
                matches InterfaceAddress::V4(ip) && ip@[0] != 127) by {
                assert(init[i] == list[i]);
            }
            let last = list[list.len() - 1];
            assert(leads_out(last));
        }
    }
}

/// The steady pace alone forgets and shows the list, every two seconds, and can be cut
/// short. In a burst the waits are 400 milliseconds at first, and 200 where the user asked.
pub proof fn the_pace_is_steady_or_fast(a: Announcer)
    ensures
        a.round_spec().prune == (a is Steady),
        a.round_spec().wakes == (a is Steady),
        a.round_spec().wait == if a is Steady {
            2000
        } else if a is Opening {
            400u64
        } else {
            200
        },
        a.after(true) == a.after(false) || a is Steady,
        Announcer::Steady.after(false) is Steady,
{
}

/// A program goes by one identifier for as long as discovery runs, and by a new one
/// otherwise.
pub proof fn an_identifier_lasts_while_discovery_runs(
    running: bool,
    own: Option<Seq<char>>,
    fresh: Seq<char>,
)
    ensures
        running ==> (own matches Some(id) ==> id_in_use(running, own, fresh) == id),
        !running || own is None ==> id_in_use(running, own, fresh) == fresh,
{
}

/// The ways out come in the order of the list, each as often as it stands there.
pub proof fn ways_out_keep_their_order(a: Seq<InterfaceAddress>, b: Seq<InterfaceAddress>)
    ensures
        ways_out(a + b) == ways_out(a) + ways_out(b),
        forall|ip: [u8; 4]|
            ip@[0] != 127 ==> #[trigger] ways_out(a.push(InterfaceAddress::V4(ip))) == ways_out(
                a,
            ).push(ip),
        forall|ip: [u8; 4]|
            ip@[0] == 127 ==> #[trigger] ways_out(a.push(InterfaceAddress::V4(ip))) == ways_out(a),
        forall|ip: [u8; 16]| #[trigger]
            ways_out(a.push(InterfaceAddress::V6(ip))) == ways_out(a),
    decreases b.len(),
{
    assert forall|last: InterfaceAddress| (#[trigger] a.push(last)).drop_last() == a by {
    }
    if b.len() == 0 {
        assert(a + b == a);
    } else {
        ways_out_keep_their_order(a, b.drop_last());
        assert((a + b).drop_last() == a + b.drop_last());
        assert((a + b).last() == b.last());
    }
}

/// No two reasons why an address cannot be tried read the same.
pub proof fn no_two_probe_errors_read_the_same(a: ProbeError, b: ProbeError)
    requires
        a.text() == b.text(),
    ensures
        a == b,
{
    reveal_strlit("Keşif henüz başlatılmadı.");
    reveal_strlit("Kendi kimliğimiz henüz hazır değil.");
    reveal_strlit("Geçersiz IP adresi.");
    assert("Keşif henüz başlatılmadı."@[2] == 'ş');
    assert("Kendi kimliğimiz henüz hazır değil."@[2] == 'n');
    assert("Geçersiz IP adresi."@[0] == 'G');
    assert("Keşif henüz başlatılmadı."@[0] == 'K');
    assert("Kendi kimliğimiz henüz hazır değil."@[0] == 'K');
}

} // verus!
