//! The application messages exchanged with clients, and their mathematical views.
use vstd::prelude::*;

verus! {

/// A session description carried by `Offer` and `Answer` (the `type` and `sdp` of WebRTC).
#[derive(Debug, Clone, PartialEq, Eq)]
pub struct Sdp {
    pub kind: String,
    pub sdp: String,
}

/// An ICE candidate carried by `Candidate`.
#[derive(Debug, Clone, PartialEq, Eq)]
pub struct IceCandidate {
    pub candidate: Option<String>,
    pub sdp_mline_index: Option<i64>,
    pub sdp_mid: Option<String>,
    pub username_fragment: Option<String>,
}

/// Who wrote a chat message: the sender's connection id, or the public key it announced.
#[derive(Debug, Clone, PartialEq, Eq)]
pub enum Author {
    Id(u64),
    Pubkey(String),
}

/// One application message, in either direction.
///
/// For `Offer`, `Answer` and `Candidate` the `id` names the peer: the target when a client
/// sends it, the originator when the relay forwards it.
#[derive(Debug, Clone, PartialEq, Eq)]
#[allow(inconsistent_fields)]
pub enum WireMessage {
    SetPubkey { pubkey: String },
    PubkeySet { id: u64, pubkey: String },
    SendMessage { channel: String, content: String },
    ReceiveMessage { author: Author, channel: String, content: String },
    Connected { id: u64 },
    Disconnected { id: u64 },
    ChangeStatus { author: u64, afk: bool },
    Offer { id: u64, data: Sdp },
    Answer { id: u64, data: Sdp },
    Candidate { id: u64, data: IceCandidate },
    JoinVoiceChannel { room: String },
    JoinedVoiceChannel { room: String, id: u64 },
    LeaveVoiceChannel { room: String },
    LeftVoiceChannel { room: String, id: u64 },
}

pub struct SdpView {
    pub kind: Seq<char>,
    pub sdp: Seq<char>,
}

pub struct IceCandidateView {
    pub candidate: Option<Seq<char>>,
    pub sdp_mline_index: Option<i64>,
    pub sdp_mid: Option<Seq<char>>,
    pub username_fragment: Option<Seq<char>>,
}

pub enum AuthorView {
    Id(u64),
    Pubkey(Seq<char>),
}

/// A message with every string seen as its sequence of characters.
#[allow(inconsistent_fields)]
pub enum WireView {
    SetPubkey { pubkey: Seq<char> },
    PubkeySet { id: u64, pubkey: Seq<char> },
    SendMessage { channel: Seq<char>, content: Seq<char> },
    ReceiveMessage { author: AuthorView, channel: Seq<char>, content: Seq<char> },
    Connected { id: u64 },
    Disconnected { id: u64 },
    ChangeStatus { author: u64, afk: bool },
    Offer { id: u64, data: SdpView },
    Answer { id: u64, data: SdpView },
    Candidate { id: u64, data: IceCandidateView },
    JoinVoiceChannel { room: Seq<char> },
    JoinedVoiceChannel { room: Seq<char>, id: u64 },
    LeaveVoiceChannel { room: Seq<char> },
    LeftVoiceChannel { room: Seq<char>, id: u64 },
}

pub open spec fn opt_view(o: Option<String>) -> Option<Seq<char>> {
    match o {
        Some(s) => Some(s@),
        None => None,
    }
}

impl View for Sdp {
    type V = SdpView;

    open spec fn view(&self) -> SdpView {
        SdpView { kind: self.kind@, sdp: self.sdp@ }
    }
}

impl View for IceCandidate {
    type V = IceCandidateView;

    open spec fn view(&self) -> IceCandidateView {
        IceCandidateView {
            candidate: opt_view(self.candidate),
            sdp_mline_index: self.sdp_mline_index,
            sdp_mid: opt_view(self.sdp_mid),
            username_fragment: opt_view(self.username_fragment),
        }
    }
}

impl View for Author {
    type V = AuthorView;

    open spec fn view(&self) -> AuthorView {
        match self {
            Author::Id(id) => AuthorView::Id(*id),
            Author::Pubkey(k) => AuthorView::Pubkey(k@),
        }
    }
}

impl View for WireMessage {
    type V = WireView;

    open spec fn view(&self) -> WireView {
        match self {
            WireMessage::SetPubkey { pubkey } => WireView::SetPubkey { pubkey: pubkey@ },
            WireMessage::PubkeySet { id, pubkey } => WireView::PubkeySet { id: *id, pubkey: pubkey@ },
            WireMessage::SendMessage { channel, content } => WireView::SendMessage {
                channel: channel@,
                content: content@,
            },
            WireMessage::ReceiveMessage { author, channel, content } => WireView::ReceiveMessage {
                author: author@,
                channel: channel@,
                content: content@,
            },
            WireMessage::Connected { id } => WireView::Connected { id: *id },
            WireMessage::Disconnected { id } => WireView::Disconnected { id: *id },
            WireMessage::ChangeStatus { author, afk } => WireView::ChangeStatus {
                author: *author,
                afk: *afk,
            },
            WireMessage::Offer { id, data } => WireView::Offer { id: *id, data: data@ },
            WireMessage::Answer { id, data } => WireView::Answer { id: *id, data: data@ },
            WireMessage::Candidate { id, data } => WireView::Candidate { id: *id, data: data@ },
            WireMessage::JoinVoiceChannel { room } => WireView::JoinVoiceChannel { room: room@ },
            WireMessage::JoinedVoiceChannel { room, id } => WireView::JoinedVoiceChannel {
                room: room@,
                id: *id,
            },
            WireMessage::LeaveVoiceChannel { room } => WireView::LeaveVoiceChannel { room: room@ },
            WireMessage::LeftVoiceChannel { room, id } => WireView::LeftVoiceChannel {
                room: room@,
                id: *id,
            },
        }
    }
}

} // verus!
