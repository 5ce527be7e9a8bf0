//! The work that a node hands to its host.

use vstd::prelude::*;
use crate::aux::LinkID;
use crate::direct_packet::{DirectPacket, DirectPacketView};
use crate::ice::{ICE, IceView};
use crate::packet::{Packet, PacketView};

verus! {

/// What the host must do next: generate offers and answers, apply answers
/// and ICE candidates to links, send packets, or hand offers and answers to
/// the user.
#[derive(Debug, PartialEq, Eq)]
pub enum Command<Answer, Offer> {
    AddICE { link_id: LinkID, ice: ICE },
    AnswerOffer { link_id: LinkID, answer: Answer },
    GenerateAnswer { link_id: LinkID, offer: Offer },
    GenerateOffer(LinkID),
    Send { link_id: LinkID, packet: Packet<Answer, Offer> },
    SendDirect { link_id: LinkID, packet: DirectPacket },
    UserAnswer { link_id: LinkID, answer: Answer },
    UserOffer { link_id: LinkID, offer: Offer },
}

/// The mathematical value of a command whose answers and offers are text.
pub enum CommandView {
    AddICE { link_id: i32, ice: IceView },
    AnswerOffer { link_id: i32, answer: Seq<char> },
    GenerateAnswer { link_id: i32, offer: Seq<char> },
    GenerateOffer(i32),
    Send { link_id: i32, packet: PacketView },
    SendDirect { link_id: i32, packet: DirectPacketView },
    UserAnswer { link_id: i32, answer: Seq<char> },
    UserOffer { link_id: i32, offer: Seq<char> },
}

impl View for Command<String, String> {
    type V = CommandView;

    open spec fn view(&self) -> CommandView {
        match self {
            Command::AddICE { link_id, ice } => CommandView::AddICE { link_id: link_id.0, ice: ice@ },
            Command::AnswerOffer { link_id, answer } => CommandView::AnswerOffer {
                link_id: link_id.0,
                answer: answer@,
            },
            Command::GenerateAnswer { link_id, offer } => CommandView::GenerateAnswer {
                link_id: link_id.0,
                offer: offer@,
            },
            Command::GenerateOffer(link_id) => CommandView::GenerateOffer(link_id.0),
            Command::Send { link_id, packet } => CommandView::Send {
                link_id: link_id.0,
                packet: packet@,
            },
            Command::SendDirect { link_id, packet } => CommandView::SendDirect {
                link_id: link_id.0,
                packet: packet@,
            },
            Command::UserAnswer { link_id, answer } => CommandView::UserAnswer {
                link_id: link_id.0,
                answer: answer@,
            },
            Command::UserOffer { link_id, offer } => CommandView::UserOffer {
                link_id: link_id.0,
                offer: offer@,
            },
        }
    }
}

impl DeepView for Command<String, String> {
    type V = CommandView;

    open spec fn deep_view(&self) -> CommandView {
        self@
    }
}

} // verus!
