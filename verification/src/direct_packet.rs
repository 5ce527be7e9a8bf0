//! Packets exchanged between neighbors over one link.

use vstd::prelude::*;
use vstd::string::*;
use crate::digest::{checksum, checksum_of, is_hex_digit};
use crate::peer_id::PeerID;
use crate::routing_entry::RoutingCost;
use crate::text::{debug_list, debug_quoted, decimal, push_debug_list, push_decimal, str_debug};

verus! {

/// The body of a packet between neighbors.
#[derive(Debug, PartialEq, Eq)]
pub enum DirectBody {
    DearJohn,
    DistanceIncrease { peer: PeerID, trace: Vec<PeerID> },
    Goodbye,
    Greetings { me: PeerID, supported_versions: Vec<String> },
    InvalidPacket,
    InvalidSalutation,
    LostRouteTo { peer: PeerID },
    Me { me: PeerID },
    NotYouAgain,
    /// source is the first item in trace.
    RouteTraceFromOriginatorToTarget { target: PeerID, trace: Vec<PeerID> },
    /// destination is the first item in trace.
    RouteTraceToOriginatorFromTarget { originator: PeerID, trace: Vec<PeerID> },
    /// this is the sending node's routing cost, you need to add 1 to the cost to get the value you would add to your routing table
    RoutingInformationExchange { entries: Vec<(PeerID, RoutingCost)> },
    TellItToMeIn { version: String },
    UnknownVersion,
    Who,
}

/// The mathematical value of a `DirectBody`: peers and strings by their text.
pub enum DirectBodyView {
    DearJohn,
    DistanceIncrease { peer: Seq<char>, trace: Seq<Seq<char>> },
    Goodbye,
    Greetings { me: Seq<char>, supported_versions: Seq<Seq<char>> },
    InvalidPacket,
    InvalidSalutation,
    LostRouteTo { peer: Seq<char> },
    Me { me: Seq<char> },
    NotYouAgain,
    RouteTraceFromOriginatorToTarget { target: Seq<char>, trace: Seq<Seq<char>> },
    RouteTraceToOriginatorFromTarget { originator: Seq<char>, trace: Seq<Seq<char>> },
    RoutingInformationExchange { entries: Seq<(Seq<char>, RoutingCost)> },
    TellItToMeIn { version: Seq<char> },
    UnknownVersion,
    Who,
}

impl View for DirectBody {
    type V = DirectBodyView;

    open spec fn view(&self) -> DirectBodyView {
        match self {
            DirectBody::DearJohn => DirectBodyView::DearJohn,
            DirectBody::DistanceIncrease { peer, trace } => DirectBodyView::DistanceIncrease {
                peer: peer@,
                trace: trace.deep_view(),
            },
            DirectBody::Goodbye => DirectBodyView::Goodbye,
            DirectBody::Greetings { me, supported_versions } => DirectBodyView::Greetings {
                me: me@,
                supported_versions: supported_versions.deep_view(),
            },
            DirectBody::InvalidPacket => DirectBodyView::InvalidPacket,
            DirectBody::InvalidSalutation => DirectBodyView::InvalidSalutation,
            DirectBody::LostRouteTo { peer } => DirectBodyView::LostRouteTo { peer: peer@ },
            DirectBody::Me { me } => DirectBodyView::Me { me: me@ },
            DirectBody::NotYouAgain => DirectBodyView::NotYouAgain,
            DirectBody::RouteTraceFromOriginatorToTarget { target, trace } =>
                DirectBodyView::RouteTraceFromOriginatorToTarget {
                    target: target@,
                    trace: trace.deep_view(),
                },
            DirectBody::RouteTraceToOriginatorFromTarget { originator, trace } =>
                DirectBodyView::RouteTraceToOriginatorFromTarget {
                    originator: originator@,
                    trace: trace.deep_view(),
                },
            DirectBody::RoutingInformationExchange { entries } =>
                DirectBodyView::RoutingInformationExchange { entries: entries.deep_view() },
            DirectBody::TellItToMeIn { version } => DirectBodyView::TellItToMeIn {
                version: version@,
            },
            DirectBody::UnknownVersion => DirectBodyView::UnknownVersion,
            DirectBody::Who => DirectBodyView::Who,
        }
    }
}

/// How the derived `Debug` writes a peer identifier: `PeerID("name")`.
pub open spec fn peer_debug(peer: Seq<char>) -> Seq<char> {
    "PeerID("@ + str_debug(peer) + ")"@
}

/// How `Debug` writes a list of peers.
pub open spec fn peers_debug(peers: Seq<Seq<char>>) -> Seq<char> {
    debug_list(peers.map_values(|p: Seq<char>| peer_debug(p)))
}

/// How `Debug` writes a list of strings.
pub open spec fn strings_debug(strings: Seq<Seq<char>>) -> Seq<char> {
    debug_list(strings.map_values(|s: Seq<char>| str_debug(s)))
}

/// How `Debug` writes a routing announcement `(peer, cost)`.
pub open spec fn entry_debug(entry: (Seq<char>, RoutingCost)) -> Seq<char> {
    "("@ + peer_debug(entry.0) + ", "@ + decimal(entry.1 as int) + ")"@
}

/// How `Debug` writes a list of routing announcements.
pub open spec fn entries_debug(entries: Seq<(Seq<char>, RoutingCost)>) -> Seq<char> {
    debug_list(entries.map_values(|e: (Seq<char>, RoutingCost)| entry_debug(e)))
}

/// The canonical text of a body, from which its checksum is computed: the
/// variant's name after `Direct:`, then its fields separated by `:`, peers
/// by `Display` and lists by `Debug`.
pub open spec fn direct_canonical(body: DirectBodyView) -> Seq<char> {
    match body {
        DirectBodyView::DearJohn => "Direct:DearJohn"@,
        DirectBodyView::DistanceIncrease { peer, trace } =>
            "Direct:DistanceIncrease:"@ + peer + ":"@ + peers_debug(trace),
        DirectBodyView::Goodbye => "Direct:Goodbye"@,
        DirectBodyView::Greetings { me, supported_versions } =>
            "Direct:Greetings:"@ + me + ":"@ + strings_debug(supported_versions),
        DirectBodyView::InvalidPacket => "Direct:InvalidPacket"@,
        DirectBodyView::InvalidSalutation => "Direct:InvalidSalutation"@,
        DirectBodyView::LostRouteTo { peer } => "Direct:LostRouteTo:"@ + peer,
        DirectBodyView::Me { me } => "Direct:Me:"@ + me,
        DirectBodyView::NotYouAgain => "Direct:NotYouAgain"@,
        DirectBodyView::RouteTraceFromOriginatorToTarget { target, trace } =>
            "Direct:RouteTraceFromOriginatorToTarget:"@ + target + ":"@ + peers_debug(trace),
        DirectBodyView::RouteTraceToOriginatorFromTarget { originator, trace } =>
            "Direct:RouteTraceToOriginatorFromTarget:"@ + originator + ":"@ + peers_debug(trace),
        DirectBodyView::RoutingInformationExchange { entries } =>
            "Direct:RoutingInformationExchange:"@ + entries_debug(entries),
        DirectBodyView::TellItToMeIn { version } => "Direct:TellItToMeIn:"@ + version,
        DirectBodyView::UnknownVersion => "Direct:UnknownVersion"@,
        DirectBodyView::Who => "Direct:Who"@,
    }
}

/// Which variant a body is, numbered in declaration order.
pub open spec fn variant_index(body: DirectBodyView) -> int {
    match body {
        DirectBodyView::DearJohn => 0,
        DirectBodyView::DistanceIncrease { .. } => 1,
        DirectBodyView::Goodbye => 2,
        DirectBodyView::Greetings { .. } => 3,
        DirectBodyView::InvalidPacket => 4,
        DirectBodyView::InvalidSalutation => 5,
        DirectBodyView::LostRouteTo { .. } => 6,
        DirectBodyView::Me { .. } => 7,
        DirectBodyView::NotYouAgain => 8,
        DirectBodyView::RouteTraceFromOriginatorToTarget { .. } => 9,
        DirectBodyView::RouteTraceToOriginatorFromTarget { .. } => 10,
        DirectBodyView::RoutingInformationExchange { .. } => 11,
        DirectBodyView::TellItToMeIn { .. } => 12,
        DirectBodyView::UnknownVersion => 13,
        DirectBodyView::Who => 14,
    }
}

/// Characters of a canonical text that tell the variants apart: the first
/// two letters of the variant's name, and, where those are shared, a later
/// letter of the name.
pub open spec fn text_key(text: Seq<char>) -> (char, char, char) {
    (
        text[7],
        text[8],
        if text[7] == 'I' {
            text[14]
        } else if text[7] == 'R' {
            if text[11] == 'i' { 'i' } else { text[17] }
        } else {
            '-'
        },
    )
}

/// The key of each variant's canonical text.
spec fn variant_key(body: DirectBodyView) -> (char, char, char) {
    match body {
        DirectBodyView::DearJohn => ('D', 'e', '-'),
        DirectBodyView::DistanceIncrease { .. } => ('D', 'i', '-'),
        DirectBodyView::Goodbye => ('G', 'o', '-'),
        DirectBodyView::Greetings { .. } => ('G', 'r', '-'),
        DirectBodyView::InvalidPacket => ('I', 'n', 'P'),
        DirectBodyView::InvalidSalutation => ('I', 'n', 'S'),
        DirectBodyView::LostRouteTo { .. } => ('L', 'o', '-'),
        DirectBodyView::Me { .. } => ('M', 'e', '-'),
        DirectBodyView::NotYouAgain => ('N', 'o', '-'),
        DirectBodyView::RouteTraceFromOriginatorToTarget { .. } => ('R', 'o', 'F'),
        DirectBodyView::RouteTraceToOriginatorFromTarget { .. } => ('R', 'o', 'T'),
        DirectBodyView::RoutingInformationExchange { .. } => ('R', 'o', 'i'),
        DirectBodyView::TellItToMeIn { .. } => ('T', 'e', '-'),
        DirectBodyView::UnknownVersion => ('U', 'n', '-'),
        DirectBodyView::Who => ('W', 'h', '-'),
    }
}

proof fn lemma_text_key(body: DirectBodyView)
    ensures
        text_key(direct_canonical(body)) == variant_key(body),
{
    reveal_strlit("Direct:DearJohn");
    reveal_strlit("Direct:DistanceIncrease:");
    reveal_strlit("Direct:Goodbye");
    reveal_strlit("Direct:Greetings:");
    reveal_strlit("Direct:InvalidPacket");
    reveal_strlit("Direct:InvalidSalutation");
    reveal_strlit("Direct:LostRouteTo:");
    reveal_strlit("Direct:Me:");
    reveal_strlit("Direct:NotYouAgain");
    reveal_strlit("Direct:RouteTraceFromOriginatorToTarget:");
    reveal_strlit("Direct:RouteTraceToOriginatorFromTarget:");
    reveal_strlit("Direct:RoutingInformationExchange:");
    reveal_strlit("Direct:TellItToMeIn:");
    reveal_strlit("Direct:UnknownVersion");
    reveal_strlit("Direct:Who");
}

/// Canonical texts tell bodies apart: bodies of different variants never
/// share a text, and neither do two `LostRouteTo`, `Me` or `TellItToMeIn`
/// bodies whose field differs.
pub proof fn law_canonical_forms_tell_bodies_apart(b1: DirectBodyView, b2: DirectBodyView)
    ensures
        variant_index(b1) != variant_index(b2) ==> direct_canonical(b1) != direct_canonical(b2),
        (b1 is LostRouteTo && b2 is LostRouteTo && b1 != b2) ==> direct_canonical(b1) != direct_canonical(b2),
        (b1 is Me && b2 is Me && b1 != b2) ==> direct_canonical(b1) != direct_canonical(b2),
        (b1 is TellItToMeIn && b2 is TellItToMeIn && b1 != b2) ==> direct_canonical(b1) != direct_canonical(b2),
{
    lemma_text_key(b1);
    lemma_text_key(b2);
    match (b1, b2) {
        (DirectBodyView::LostRouteTo { peer: p1 }, DirectBodyView::LostRouteTo { peer: p2 }) => {
            let lit = "Direct:LostRouteTo:"@;
            assert((lit + p1).skip(lit.len() as int) =~= p1);
            assert((lit + p2).skip(lit.len() as int) =~= p2);
        },
        (DirectBodyView::Me { me: p1 }, DirectBodyView::Me { me: p2 }) => {
            let lit = "Direct:Me:"@;
            assert((lit + p1).skip(lit.len() as int) =~= p1);
            assert((lit + p2).skip(lit.len() as int) =~= p2);
        },
        (DirectBodyView::TellItToMeIn { version: p1 }, DirectBodyView::TellItToMeIn { version: p2 }) => {
            let lit = "Direct:TellItToMeIn:"@;
            assert((lit + p1).skip(lit.len() as int) =~= p1);
            assert((lit + p2).skip(lit.len() as int) =~= p2);
        },
        _ => {},
    }
}

/// The checksum that a packet with this body carries.
pub open spec fn direct_checksum(body: DirectBodyView) -> Seq<char> {
    checksum_of(direct_canonical(body))
}

/// Appends `peers` as `Debug` writes them.
pub fn push_peers_debug(out: &mut String, peers: &Vec<PeerID>)
    ensures
        final(out)@ == old(out)@ + peers_debug(peers.deep_view()),
{
    let mut items: Vec<String> = Vec::new();
    let mut i: usize = 0;
    while i < peers.len()
        invariant
            i <= peers.len(),
            items@.len() == i,
            forall|j: int| 0 <= j < i ==> #[trigger] items@[j]@ == peer_debug(peers@[j]@),
        decreases peers.len() - i,
    {
        let mut item = String::new();
        item.append("PeerID(");
        let quoted = debug_quoted(peers[i].as_str());
        item.append(quoted.as_str());
        item.append(")");
        items.push(item);
        i = i + 1;
    }
    assert(items@.map_values(|s: String| s@) =~= peers.deep_view().map_values(
        |p: Seq<char>| peer_debug(p),
    ));
    push_debug_list(out, &items);
}

/// Appends `strings` as `Debug` writes them.
pub fn push_strings_debug(out: &mut String, strings: &Vec<String>)
    ensures
        final(out)@ == old(out)@ + strings_debug(strings.deep_view()),
{
    let mut items: Vec<String> = Vec::new();
    let mut i: usize = 0;
    while i < strings.len()
        invariant
            i <= strings.len(),
            items@.len() == i,
            forall|j: int| 0 <= j < i ==> #[trigger] items@[j]@ == str_debug(strings@[j]@),
        decreases strings.len() - i,
    {
        let quoted = debug_quoted(strings[i].as_str());
        items.push(quoted);
        i = i + 1;
    }
    assert(items@.map_values(|s: String| s@) =~= strings.deep_view().map_values(
        |s: Seq<char>| str_debug(s),
    ));
    push_debug_list(out, &items);
}

/// Appends routing announcements as `Debug` writes them.
pub fn push_entries_debug(out: &mut String, entries: &Vec<(PeerID, RoutingCost)>)
    ensures
        final(out)@ == old(out)@ + entries_debug(entries.deep_view()),
{
    let mut items: Vec<String> = Vec::new();
    let mut i: usize = 0;
    while i < entries.len()
        invariant
            i <= entries.len(),
            items@.len() == i,
            forall|j: int| 0 <= j < i ==> #[trigger] items@[j]@ == entry_debug(entries@[j].deep_view()),
        decreases entries.len() - i,
    {
        let mut item = String::new();
        item.append("(");
        item.append("PeerID(");
        let quoted = debug_quoted(entries[i].0.as_str());
        item.append(quoted.as_str());
        item.append(")");
        item.append(", ");
        push_decimal(&mut item, entries[i].1 as i64);
        item.append(")");
        proof {
            assert(item@ =~= entry_debug(entries@[i as int].deep_view()));
        }
        items.push(item);
        i = i + 1;
    }
    assert(items@.map_values(|s: String| s@) =~= entries.deep_view().map_values(
        |e: (Seq<char>, RoutingCost)| entry_debug(e),
    ));
    push_debug_list(out, &items);
}

impl DirectBody {
    /// The canonical text of the body, from which its checksum is computed.
    pub fn to_canonical_form(&self) -> (text: String)
        ensures
            text@ == direct_canonical(self@),
    {
        let mut text = String::new();
        match self {
            DirectBody::DearJohn => {
                text.append("Direct:DearJohn");
            },
            DirectBody::DistanceIncrease { peer, trace } => {
                text.append("Direct:DistanceIncrease:");
                text.append(peer.as_str());
                text.append(":");
                push_peers_debug(&mut text, trace);
            },
            DirectBody::Goodbye => {
                text.append("Direct:Goodbye");
            },
            DirectBody::Greetings { me, supported_versions } => {
                text.append("Direct:Greetings:");
                text.append(me.as_str());
                text.append(":");
                push_strings_debug(&mut text, supported_versions);
            },
            DirectBody::InvalidPacket => {
                text.append("Direct:InvalidPacket");
            },
            DirectBody::InvalidSalutation => {
                text.append("Direct:InvalidSalutation");
            },
            DirectBody::LostRouteTo { peer } => {
                text.append("Direct:LostRouteTo:");
                text.append(peer.as_str());
            },
            DirectBody::Me { me } => {
                text.append("Direct:Me:");
                text.append(me.as_str());
            },
            DirectBody::NotYouAgain => {
                text.append("Direct:NotYouAgain");
            },
            DirectBody::RouteTraceFromOriginatorToTarget { target, trace } => {
                text.append("Direct:RouteTraceFromOriginatorToTarget:");
                text.append(target.as_str());
                text.append(":");
                push_peers_debug(&mut text, trace);
            },
            DirectBody::RouteTraceToOriginatorFromTarget { originator, trace } => {
                text.append("Direct:RouteTraceToOriginatorFromTarget:");
                text.append(originator.as_str());
                text.append(":");
                push_peers_debug(&mut text, trace);
            },
            DirectBody::RoutingInformationExchange { entries } => {
                text.append("Direct:RoutingInformationExchange:");
                push_entries_debug(&mut text, entries);
            },
            DirectBody::TellItToMeIn { version } => {
                text.append("Direct:TellItToMeIn:");
                text.append(version.as_str());
            },
            DirectBody::UnknownVersion => {
                text.append("Direct:UnknownVersion");
            },
            DirectBody::Who => {
                text.append("Direct:Who");
            },
        }
        text
    }

    /// The checksum of the body: the MD5 digest of its canonical text in
    /// lowercase hexadecimal.
    pub fn checksum(&self) -> (sum: String)
        ensures
            sum@ == direct_checksum(self@),
            sum@.len() == 32,
            forall|i: int| 0 <= i < sum@.len() ==> is_hex_digit(#[trigger] sum@[i]),
    {
        let text = self.to_canonical_form();
        checksum(text.as_str())
    }
}

/// Copies a list of peers.
pub fn clone_peers(peers: &Vec<PeerID>) -> (copy: Vec<PeerID>)
    ensures
        copy.deep_view() == peers.deep_view(),
{
    let mut copy: Vec<PeerID> = Vec::new();
    let mut i: usize = 0;
    while i < peers.len()
        invariant
            i <= peers.len(),
            copy@.len() == i,
            forall|j: int| 0 <= j < i ==> #[trigger] copy@[j]@ == peers@[j]@,
        decreases peers.len() - i,
    {
        copy.push(peers[i].clone());
        i = i + 1;
    }
    assert forall|j: int| 0 <= j < peers@.len() implies copy.deep_view()[j] == peers.deep_view()[j] by {
        assert(copy@[j]@ == peers@[j]@);
    }
    assert(copy.deep_view() =~= peers.deep_view());
    copy
}

/// Copies a list of strings.
pub fn clone_strings(strings: &Vec<String>) -> (copy: Vec<String>)
    ensures
        copy.deep_view() == strings.deep_view(),
{
    let mut copy: Vec<String> = Vec::new();
    let mut i: usize = 0;
    while i < strings.len()
        invariant
            i <= strings.len(),
            copy@.len() == i,
            forall|j: int| 0 <= j < i ==> #[trigger] copy@[j]@ == strings@[j]@,
        decreases strings.len() - i,
    {
        copy.push(strings[i].clone());
        i = i + 1;
    }
    assert(copy.deep_view() =~= strings.deep_view());
    copy
}

/// Copies a list of routing announcements.
pub fn clone_entries(entries: &Vec<(PeerID, RoutingCost)>) -> (copy: Vec<(PeerID, RoutingCost)>)
    ensures
        copy.deep_view() == entries.deep_view(),
{
    let mut copy: Vec<(PeerID, RoutingCost)> = Vec::new();
    let mut i: usize = 0;
    while i < entries.len()
        invariant
            i <= entries.len(),
            copy@.len() == i,
            forall|j: int| 0 <= j < i ==> #[trigger] copy@[j].deep_view() == entries@[j].deep_view(),
        decreases entries.len() - i,
    {
        copy.push((entries[i].0.clone(), entries[i].1));
        i = i + 1;
    }
    assert(copy.deep_view() =~= entries.deep_view());
    copy
}

impl Clone for DirectBody {
    fn clone(&self) -> (copy: DirectBody)
        ensures
            copy@ == self@,
    {
        match self {
            DirectBody::DearJohn => DirectBody::DearJohn,
            DirectBody::DistanceIncrease { peer, trace } => DirectBody::DistanceIncrease {
                peer: peer.clone(),
                trace: clone_peers(trace),
            },
            DirectBody::Goodbye => DirectBody::Goodbye,
            DirectBody::Greetings { me, supported_versions } => DirectBody::Greetings {
                me: me.clone(),
                supported_versions: clone_strings(supported_versions),
            },
            DirectBody::InvalidPacket => DirectBody::InvalidPacket,
            DirectBody::InvalidSalutation => DirectBody::InvalidSalutation,
            DirectBody::LostRouteTo { peer } => DirectBody::LostRouteTo { peer: peer.clone() },
            DirectBody::Me { me } => DirectBody::Me { me: me.clone() },
            DirectBody::NotYouAgain => DirectBody::NotYouAgain,
            DirectBody::RouteTraceFromOriginatorToTarget { target, trace } =>
                DirectBody::RouteTraceFromOriginatorToTarget {
                    target: target.clone(),
                    trace: clone_peers(trace),
                },
            DirectBody::RouteTraceToOriginatorFromTarget { originator, trace } =>
                DirectBody::RouteTraceToOriginatorFromTarget {
                    originator: originator.clone(),
                    trace: clone_peers(trace),
                },
            DirectBody::RoutingInformationExchange { entries } =>
                DirectBody::RoutingInformationExchange { entries: clone_entries(entries) },
            DirectBody::TellItToMeIn { version } => DirectBody::TellItToMeIn {
                version: version.clone(),
            },
            DirectBody::UnknownVersion => DirectBody::UnknownVersion,
            DirectBody::Who => DirectBody::Who,
        }
    }
}

/// A packet between neighbors: a body and the checksum it was sent with.
#[derive(Debug, PartialEq, Eq)]
pub struct DirectPacket {
    pub md5: String,
    pub body: DirectBody,
}

/// The mathematical value of a `DirectPacket`.
pub struct DirectPacketView {
    pub md5: Seq<char>,
    pub body: DirectBodyView,
}

impl View for DirectPacket {
    type V = DirectPacketView;

    open spec fn view(&self) -> DirectPacketView {
        DirectPacketView { md5: self.md5@, body: self.body@ }
    }
}

/// The packet that `DirectPacket::new` makes of a body: the body with its
/// checksum.
pub open spec fn direct_packet_of(body: DirectBodyView) -> DirectPacketView {
    DirectPacketView { md5: direct_checksum(body), body }
}

/// Whether a packet's checksum is the checksum of its body.
pub open spec fn direct_packet_verifies(packet: DirectPacketView) -> bool {
    packet.md5 == direct_checksum(packet.body)
}

impl Clone for DirectPacket {
    fn clone(&self) -> (copy: DirectPacket)
        ensures
            copy@ == self@,
    {
        DirectPacket { md5: self.md5.clone(), body: self.body.clone() }
    }
}

impl From<DirectBody> for DirectPacket {
    fn from(item: DirectBody) -> (packet: DirectPacket)
        ensures
            packet@ == direct_packet_of(item@),
    {
        let md5 = item.checksum();
        Self { md5, body: item }
    }
}

/// Converting a body seals it; the checksum inside is a fresh `String`, so the
/// conversion is stated by its view in the `ensures` of `from`.
impl vstd::std_specs::convert::FromSpecImpl<DirectBody> for DirectPacket {
    open spec fn obeys_from_spec() -> bool {
        false
    }

    open spec fn from_spec(item: DirectBody) -> DirectPacket {
        choose|packet: DirectPacket| packet@ == direct_packet_of(item@)
    }
}

impl DirectPacket {
    /// Seals a body: the packet carries the body's checksum.
    pub fn new(body: DirectBody) -> (packet: Self)
        ensures
            packet@ == direct_packet_of(body@),
    {
        let md5 = body.checksum();
        Self { md5, body }
    }

    /// Whether the packet's checksum matches its body.
    pub fn varify(&self) -> (valid: bool)
        ensures
            valid == direct_packet_verifies(self@),
            valid ==> self@.md5.len() == 32,
    {
        let sum = self.body.checksum();
        self.md5 == sum
    }
}

/// A packet sealed from any body verifies: the checksum it carries is the one
/// its receiver recomputes.
pub proof fn lemma_sealed_direct_packet_verifies(body: DirectBodyView)
    ensures
        direct_packet_verifies(direct_packet_of(body)),
{
}

/// Changing the checksum of a sealed packet makes it fail verification.
pub proof fn lemma_tampered_direct_packet_fails(body: DirectBodyView, md5: Seq<char>)
    requires
        md5 != direct_checksum(body),
    ensures
        !direct_packet_verifies(DirectPacketView { md5, body }),
{
}

} // verus!
