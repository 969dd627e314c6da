//! Protocol messages and their phases.

use vstd::bytes::{spec_u64_to_le_bytes, u64_to_le_bytes};
use vstd::prelude::*;
use vstd::utf8::encode_utf8;

verus! {

/// Phase of the three-phase agreement that a message belongs to.
///
/// The declaration order is the required progression:
/// `PrePrepare < Prepare < Commit`.
#[derive(Debug, Clone, Copy, PartialEq, Eq, PartialOrd, Ord, Hash, Structural)]
pub enum MessageType {
    /// The primary proposes a digest for a sequence number.
    PrePrepare,
    /// A replica confirms that it accepted the primary's proposal.
    Prepare,
    /// A replica confirms that a quorum prepared the proposal.
    Commit,
}

impl MessageType {
    /// Position of the phase in the progression, starting at 0.
    pub open spec fn rank(self) -> nat {
        match self {
            MessageType::PrePrepare => 0,
            MessageType::Prepare => 1,
            MessageType::Commit => 2,
        }
    }

    /// Position of the phase in the progression as a byte.
    pub fn ordinal(&self) -> (r: u8)
        ensures
            r == self.rank(),
    {
        match self {
            MessageType::PrePrepare => 0,
            MessageType::Prepare => 1,
            MessageType::Commit => 2,
        }
    }

    /// Whether this phase comes strictly before `other` in the progression.
    pub fn precedes(&self, other: MessageType) -> (earlier: bool)
        ensures
            earlier == (self.rank() < other.rank()),
    {
        self.ordinal() < other.ordinal()
    }
}

/// What a message says, as plain values.
pub struct MessageView {
    pub view_id: u64,
    pub sequence_number: u64,
    pub msg_type: MessageType,
    pub digest: Seq<char>,
    pub sender_id: u64,
    pub signature: Seq<u8>,
}

/// The bytes that a signature covers: view, sequence number, phase, digest
/// and sender, in this order. Numbers are eight bytes each, lowest byte
/// first; the phase is one byte, its rank; the digest is its UTF-8 bytes
/// behind their count.
pub open spec fn spec_signing_payload(m: MessageView) -> Seq<u8> {
    spec_u64_to_le_bytes(m.view_id) + spec_u64_to_le_bytes(m.sequence_number) + seq![
        m.msg_type.rank() as u8,
    ] + spec_u64_to_le_bytes(encode_utf8(m.digest).len() as u64) + encode_utf8(m.digest)
        + spec_u64_to_le_bytes(m.sender_id)
}

/// A signature covers all that a message says: two messages with the same
/// signed bytes agree in view, sequence number, phase, digest and sender.
/// The digests are taken to be short enough for their byte count to be
/// written in eight bytes, as every string in memory is.
pub proof fn lemma_signing_payload_tells_fields(a: MessageView, b: MessageView)
    requires
        spec_signing_payload(a) == spec_signing_payload(b),
        encode_utf8(a.digest).len() <= u64::MAX,
        encode_utf8(b.digest).len() <= u64::MAX,
    ensures
        a.view_id == b.view_id,
        a.sequence_number == b.sequence_number,
        a.msg_type == b.msg_type,
        a.digest == b.digest,
        a.sender_id == b.sender_id,
{
    vstd::bytes::lemma_auto_spec_u64_to_from_le_bytes();
    let pa = spec_signing_payload(a);
    let pb = spec_signing_payload(b);
    let ta = encode_utf8(a.digest);
    let tb = encode_utf8(b.digest);
    let la = ta.len() as u64;
    let lb = tb.len() as u64;
    assert(pa.subrange(0, 8) =~= spec_u64_to_le_bytes(a.view_id));
    assert(pb.subrange(0, 8) =~= spec_u64_to_le_bytes(b.view_id));
    assert(pa.subrange(8, 16) =~= spec_u64_to_le_bytes(a.sequence_number));
    assert(pb.subrange(8, 16) =~= spec_u64_to_le_bytes(b.sequence_number));
    assert(pa[16] == a.msg_type.rank() as u8);
    assert(pb[16] == b.msg_type.rank() as u8);
    assert(pa.subrange(17, 25) =~= spec_u64_to_le_bytes(la));
    assert(pb.subrange(17, 25) =~= spec_u64_to_le_bytes(lb));
    assert(la == lb);
    assert(ta.len() == tb.len());
    let n = ta.len() as int;
    assert(pa.subrange(25, 25 + n) =~= ta);
    assert(pb.subrange(25, 25 + n) =~= tb);
    vstd::utf8::encode_utf8_decode_utf8(a.digest);
    vstd::utf8::encode_utf8_decode_utf8(b.digest);
    assert(pa.subrange(25 + n, 33 + n) =~= spec_u64_to_le_bytes(a.sender_id));
    assert(pb.subrange(25 + n, 33 + n) =~= spec_u64_to_le_bytes(b.sender_id));
}

/// One unit of protocol communication. Its fields are fixed at construction.
#[derive(Debug, PartialEq, Eq)]
pub struct ConsensusMessage {
    view_id: u64,
    sequence_number: u64,
    msg_type: MessageType,
    digest: String,
    sender_id: u64,
    signature: Vec<u8>,
}

impl View for ConsensusMessage {
    type V = MessageView;

    closed spec fn view(&self) -> MessageView {
        MessageView {
            view_id: self.view_id,
            sequence_number: self.sequence_number,
            msg_type: self.msg_type,
            digest: self.digest@,
            sender_id: self.sender_id,
            signature: self.signature@,
        }
    }
}

impl Clone for ConsensusMessage {
    fn clone(&self) -> (copy: Self)
        ensures
            copy@ == self@,
    {
        let signature = self.signature.clone();
        assert(signature@ =~= self.signature@);
        ConsensusMessage {
            view_id: self.view_id,
            sequence_number: self.sequence_number,
            msg_type: self.msg_type,
            digest: self.digest.clone(),
            sender_id: self.sender_id,
            signature,
        }
    }
}

impl ConsensusMessage {
    /// A message with the given fields. Nothing is signed or verified here:
    /// `sig` is taken as it is.
    pub fn new(
        view_id: u64,
        seq: u64,
        msg_type: MessageType,
        digest: String,
        sender: u64,
        sig: Vec<u8>,
    ) -> (msg: Self)
        ensures
            msg@ == (MessageView {
                view_id,
                sequence_number: seq,
                msg_type,
                digest: digest@,
                sender_id: sender,
                signature: sig@,
            }),
    {
        Self { view_id, sequence_number: seq, msg_type, digest, sender_id: sender, signature: sig }
    }

    /// The leadership epoch that the message belongs to.
    pub fn view_id(&self) -> (v: u64)
        ensures
            v == self@.view_id,
    {
        self.view_id
    }

    /// The slot that the message is about.
    pub fn sequence_number(&self) -> (n: u64)
        ensures
            n == self@.sequence_number,
    {
        self.sequence_number
    }

    /// The phase that the message belongs to.
    pub fn msg_type(&self) -> (phase: MessageType)
        ensures
            phase == self@.msg_type,
    {
        self.msg_type
    }

    /// The fingerprint of the value that the message is about.
    pub fn digest(&self) -> (d: &String)
        ensures
            d@ == self@.digest,
    {
        &self.digest
    }

    /// The replica that the message claims to come from.
    pub fn sender_id(&self) -> (s: u64)
        ensures
            s == self@.sender_id,
    {
        self.sender_id
    }

    /// The signature that came with the message.
    pub fn signature(&self) -> (sig: &Vec<u8>)
        ensures
            sig@ == self@.signature,
    {
        &self.signature
    }

    /// The same message with `signature` in place of its own.
    pub fn signed(&self, signature: Vec<u8>) -> (msg: ConsensusMessage)
        ensures
            msg@ == (MessageView { signature: signature@, ..self@ }),
    {
        ConsensusMessage {
            view_id: self.view_id,
            sequence_number: self.sequence_number,
            msg_type: self.msg_type,
            digest: self.digest.clone(),
            sender_id: self.sender_id,
            signature,
        }
    }

    /// The bytes that the signature of this message covers.
    pub fn signing_payload(&self) -> (bytes: Vec<u8>)
        ensures
            bytes@ == spec_signing_payload(self@),
    {
        let text = self.digest.as_str().as_bytes();
        let mut bytes = u64_to_le_bytes(self.view_id);
        let mut part = u64_to_le_bytes(self.sequence_number);
        bytes.append(&mut part);
        bytes.push(self.msg_type.ordinal());
        let mut part = u64_to_le_bytes(text.len() as u64);
        bytes.append(&mut part);
        bytes.extend_from_slice(text);
        let mut part = u64_to_le_bytes(self.sender_id);
        bytes.append(&mut part);
        assert(bytes@ =~= spec_signing_payload(self@));
        bytes
    }
}

} // verus!
