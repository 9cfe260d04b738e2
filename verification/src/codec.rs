//! Canonical binary encoding of the reliable-layer envelope, and the
//! length-prefixed framing used on the wire.
//!
//! Every frame after the handshake is a 4-byte big-endian payload length
//! followed by that many payload bytes; the payload is the encoding of one
//! [`ReliableNetworkMessage`]. The encoding itself is implementation-defined
//! and shared between peers running this implementation: integers are 8-byte
//! little-endian, options are a one-byte tag, variants are a one-byte tag,
//! byte strings are length-prefixed.

use vstd::prelude::*;
use vstd::bytes::*;
use crate::config::NodeId;
use crate::protocol::{
    MessageId, MessagePriority, PriorityMessageArgs, PriorityProposalArgs, PriorityRequestArgs,
    ReliableNetworkMessage, TotalOrderNetworkMessage,
};

verus! {

/// Mathematical model of a [`TotalOrderNetworkMessage`]: the payload as a
/// byte sequence.
#[verifier::ext_equal]
pub enum MsgModel {
    PriorityRequest { local_id: MessageId, message: Seq<u8> },
    PriorityProposal { requester_local_id: MessageId, priority: MessagePriority },
    PriorityMessage { local_id: MessageId, priority: MessagePriority },
    DirectMessage { message: Seq<u8> },
}

/// Mathematical model of a [`ReliableNetworkMessage`].
#[verifier::ext_equal]
pub struct EnvelopeModel {
    pub msg: MsgModel,
    pub sequence_num: Option<usize>,
    pub forwarded_for: Option<NodeId>,
}

impl MsgModel {
    /// Any payload held in an executable vector satisfies this.
    pub open spec fn wf(self) -> bool {
        match self {
            MsgModel::PriorityRequest { message, .. } => message.len() <= usize::MAX,
            MsgModel::DirectMessage { message } => message.len() <= usize::MAX,
            _ => true,
        }
    }
}

impl EnvelopeModel {
    pub open spec fn wf(self) -> bool {
        self.msg.wf()
    }
}

impl View for TotalOrderNetworkMessage {
    type V = MsgModel;

    open spec fn view(&self) -> MsgModel {
        match *self {
            TotalOrderNetworkMessage::PriorityRequest(a) => MsgModel::PriorityRequest {
                local_id: a.local_id,
                message: a.message@,
            },
            TotalOrderNetworkMessage::PriorityProposal(a) => MsgModel::PriorityProposal {
                requester_local_id: a.requester_local_id,
                priority: a.priority,
            },
            TotalOrderNetworkMessage::PriorityMessage(a) => MsgModel::PriorityMessage {
                local_id: a.local_id,
                priority: a.priority,
            },
            TotalOrderNetworkMessage::DirectMessage(m) => MsgModel::DirectMessage { message: m@ },
        }
    }
}

impl View for ReliableNetworkMessage {
    type V = EnvelopeModel;

    open spec fn view(&self) -> EnvelopeModel {
        EnvelopeModel {
            msg: self.msg@,
            sequence_num: self.sequence_num,
            forwarded_for: self.forwarded_for,
        }
    }
}

// ---------------------------------------------------------------------------
// Specification of the encoding
// ---------------------------------------------------------------------------

pub open spec fn spec_enc_usize(v: usize) -> Seq<u8> {
    spec_u64_to_le_bytes(v as u64)
}

pub open spec fn spec_enc_opt_usize(o: Option<usize>) -> Seq<u8> {
    match o {
        Option::None => seq![0u8],
        Option::Some(v) => seq![1u8] + spec_enc_usize(v),
    }
}

pub open spec fn spec_enc_id(id: MessageId) -> Seq<u8> {
    spec_enc_usize(id.original_sender) + spec_enc_usize(id.local_id)
}

pub open spec fn spec_enc_pri(p: MessagePriority) -> Seq<u8> {
    spec_enc_usize(p.priority) + spec_enc_usize(p.proposer)
}

pub open spec fn spec_enc_payload(v: Seq<u8>) -> Seq<u8> {
    spec_enc_usize(v.len() as usize) + v
}

pub open spec fn spec_enc_msg(m: MsgModel) -> Seq<u8> {
    match m {
        MsgModel::PriorityRequest { local_id, message } => seq![0u8] + spec_enc_id(local_id)
            + spec_enc_payload(message),
        MsgModel::PriorityProposal { requester_local_id, priority } => seq![1u8] + spec_enc_id(
            requester_local_id,
        ) + spec_enc_pri(priority),
        MsgModel::PriorityMessage { local_id, priority } => seq![2u8] + spec_enc_id(local_id)
            + spec_enc_pri(priority),
        MsgModel::DirectMessage { message } => seq![3u8] + spec_enc_payload(message),
    }
}

pub open spec fn spec_enc_envelope(e: EnvelopeModel) -> Seq<u8> {
    spec_enc_opt_usize(e.sequence_num) + spec_enc_opt_usize(e.forwarded_for) + spec_enc_msg(e.msg)
}

// ---------------------------------------------------------------------------
// Specification of the decoding: each parser takes the whole byte sequence
// and a start position, and yields the parsed value with the position after
// it, or nothing if the bytes at that position are not a valid encoding.
// ---------------------------------------------------------------------------

pub open spec fn spec_dec_usize(b: Seq<u8>, i: int) -> Option<(usize, int)> {
    if 0 <= i && i + 8 <= b.len() {
        let v = spec_u64_from_le_bytes(b.subrange(i, i + 8));
        if v <= usize::MAX as u64 {
            Some((v as usize, i + 8))
        } else {
            None
        }
    } else {
        None
    }
}

pub open spec fn spec_dec_opt_usize(b: Seq<u8>, i: int) -> Option<(Option<usize>, int)> {
    if 0 <= i && i < b.len() {
        if b[i] == 0 {
            Some((Option::None, i + 1))
        } else if b[i] == 1 {
            match spec_dec_usize(b, i + 1) {
                Some((v, j)) => Some((Option::Some(v), j)),
                None => None,
            }
        } else {
            None
        }
    } else {
        None
    }
}

pub open spec fn spec_dec_id(b: Seq<u8>, i: int) -> Option<(MessageId, int)> {
    match spec_dec_usize(b, i) {
        Some((original_sender, j)) => match spec_dec_usize(b, j) {
            Some((local_id, k)) => Some((MessageId { original_sender, local_id }, k)),
            None => None,
        },
        None => None,
    }
}

pub open spec fn spec_dec_pri(b: Seq<u8>, i: int) -> Option<(MessagePriority, int)> {
    match spec_dec_usize(b, i) {
        Some((priority, j)) => match spec_dec_usize(b, j) {
            Some((proposer, k)) => Some((MessagePriority { priority, proposer }, k)),
            None => None,
        },
        None => None,
    }
}

pub open spec fn spec_dec_payload(b: Seq<u8>, i: int) -> Option<(Seq<u8>, int)> {
    match spec_dec_usize(b, i) {
        Some((n, j)) => if j + n <= b.len() {
            Some((b.subrange(j, j + n), j + n))
        } else {
            None
        },
        None => None,
    }
}

pub open spec fn spec_dec_msg(b: Seq<u8>, i: int) -> Option<(MsgModel, int)> {
    if 0 <= i && i < b.len() {
        if b[i] == 0 {
            match spec_dec_id(b, i + 1) {
                Some((local_id, j)) => match spec_dec_payload(b, j) {
                    Some((message, k)) => Some(
                        (MsgModel::PriorityRequest { local_id, message }, k),
                    ),
                    None => None,
                },
                None => None,
            }
        } else if b[i] == 1 {
            match spec_dec_id(b, i + 1) {
                Some((requester_local_id, j)) => match spec_dec_pri(b, j) {
                    Some((priority, k)) => Some(
                        (MsgModel::PriorityProposal { requester_local_id, priority }, k),
                    ),
                    None => None,
                },
                None => None,
            }
        } else if b[i] == 2 {
            match spec_dec_id(b, i + 1) {
                Some((local_id, j)) => match spec_dec_pri(b, j) {
                    Some((priority, k)) => Some(
                        (MsgModel::PriorityMessage { local_id, priority }, k),
                    ),
                    None => None,
                },
                None => None,
            }
        } else if b[i] == 3 {
            match spec_dec_payload(b, i + 1) {
                Some((message, k)) => Some((MsgModel::DirectMessage { message }, k)),
                None => None,
            }
        } else {
            None
        }
    } else {
        None
    }
}

/// The whole-buffer decoder: one envelope, consuming the buffer exactly.
pub open spec fn spec_dec_envelope(b: Seq<u8>) -> Option<EnvelopeModel> {
    match spec_dec_opt_usize(b, 0) {
        Some((sequence_num, i)) => match spec_dec_opt_usize(b, i) {
            Some((forwarded_for, j)) => match spec_dec_msg(b, j) {
                Some((msg, k)) => if k == b.len() {
                    Some(EnvelopeModel { msg, sequence_num, forwarded_for })
                } else {
                    None
                },
                None => None,
            },
            None => None,
        },
        None => None,
    }
}

// ---------------------------------------------------------------------------
// Round trip: decoding an encoding, wherever it sits in a larger buffer,
// yields the encoded value and stops right after it.
// ---------------------------------------------------------------------------

proof fn lemma_dec_enc_usize(b: Seq<u8>, i: int, v: usize)
    requires
        0 <= i,
        i + 8 <= b.len(),
        b.subrange(i, i + 8) == spec_enc_usize(v),
    ensures
        spec_dec_usize(b, i) == Some((v, i + 8)),
{
    lemma_auto_spec_u64_to_from_le_bytes();
}

proof fn lemma_dec_enc_opt_usize(b: Seq<u8>, i: int, o: Option<usize>)
    requires
        0 <= i,
        i + spec_enc_opt_usize(o).len() <= b.len(),
        b.subrange(i, i + spec_enc_opt_usize(o).len()) == spec_enc_opt_usize(o),
    ensures
        spec_dec_opt_usize(b, i) == Some((o, i + spec_enc_opt_usize(o).len())),
{
    lemma_auto_spec_u64_to_from_le_bytes();
    let e = spec_enc_opt_usize(o);
    assert(b[i] == e[0]);
    match o {
        Option::None => {
        },
        Option::Some(v) => {
            assert(b.subrange(i + 1, i + 9) =~= e.subrange(1, 9));
            assert(e.subrange(1, 9) =~= spec_enc_usize(v));
            lemma_dec_enc_usize(b, i + 1, v);
        },
    }
}

proof fn lemma_dec_enc_id(b: Seq<u8>, i: int, id: MessageId)
    requires
        0 <= i,
        i + 16 <= b.len(),
        b.subrange(i, i + 16) == spec_enc_id(id),
    ensures
        spec_dec_id(b, i) == Some((id, i + 16)),
{
    lemma_auto_spec_u64_to_from_le_bytes();
    assert(b.subrange(i, i + 8) =~= spec_enc_id(id).subrange(0, 8));
    assert(spec_enc_id(id).subrange(0, 8) =~= spec_enc_usize(id.original_sender));
    lemma_dec_enc_usize(b, i, id.original_sender);
    assert(b.subrange(i + 8, i + 16) =~= spec_enc_id(id).subrange(8, 16));
    assert(spec_enc_id(id).subrange(8, 16) =~= spec_enc_usize(id.local_id));
    lemma_dec_enc_usize(b, i + 8, id.local_id);
}

proof fn lemma_dec_enc_pri(b: Seq<u8>, i: int, p: MessagePriority)
    requires
        0 <= i,
        i + 16 <= b.len(),
        b.subrange(i, i + 16) == spec_enc_pri(p),
    ensures
        spec_dec_pri(b, i) == Some((p, i + 16)),
{
    lemma_auto_spec_u64_to_from_le_bytes();
    assert(b.subrange(i, i + 8) =~= spec_enc_pri(p).subrange(0, 8));
    assert(spec_enc_pri(p).subrange(0, 8) =~= spec_enc_usize(p.priority));
    lemma_dec_enc_usize(b, i, p.priority);
    assert(b.subrange(i + 8, i + 16) =~= spec_enc_pri(p).subrange(8, 16));
    assert(spec_enc_pri(p).subrange(8, 16) =~= spec_enc_usize(p.proposer));
    lemma_dec_enc_usize(b, i + 8, p.proposer);
}

proof fn lemma_dec_enc_payload(b: Seq<u8>, i: int, v: Seq<u8>)
    requires
        0 <= i,
        v.len() <= usize::MAX,
        i + spec_enc_payload(v).len() <= b.len(),
        b.subrange(i, i + spec_enc_payload(v).len()) == spec_enc_payload(v),
    ensures
        spec_dec_payload(b, i) == Some((v, i + spec_enc_payload(v).len())),
{
    lemma_auto_spec_u64_to_from_le_bytes();
    let e = spec_enc_payload(v);
    let n = v.len() as usize;
    assert(e.len() == 8 + v.len());
    assert(b.subrange(i, i + 8) =~= e.subrange(0, 8));
    assert(e.subrange(0, 8) =~= spec_enc_usize(n));
    lemma_dec_enc_usize(b, i, n);
    assert(b.subrange(i + 8, i + 8 + n) =~= e.subrange(8, 8 + v.len() as int));
    assert(e.subrange(8, 8 + v.len() as int) =~= v);
}

proof fn lemma_dec_enc_msg(b: Seq<u8>, i: int, m: MsgModel)
    requires
        0 <= i,
        m.wf(),
        i + spec_enc_msg(m).len() <= b.len(),
        b.subrange(i, i + spec_enc_msg(m).len()) == spec_enc_msg(m),
    ensures
        spec_dec_msg(b, i) == Some((m, i + spec_enc_msg(m).len())),
{
    lemma_auto_spec_u64_to_from_le_bytes();
    let e = spec_enc_msg(m);
    assert(b[i] == e[0]);
    match m {
        MsgModel::PriorityRequest { local_id, message } => {
            assert(b.subrange(i + 1, i + 17) =~= e.subrange(1, 17));
            assert(e.subrange(1, 17) =~= spec_enc_id(local_id));
            lemma_dec_enc_id(b, i + 1, local_id);
            let pl = spec_enc_payload(message);
            let pln = pl.len() as int;
            assert(b.subrange(i + 17, i + 17 + pln) =~= e.subrange(17, 17 + pln));
            assert(e.subrange(17, 17 + pln) =~= pl);
            lemma_dec_enc_payload(b, i + 17, message);
        },
        MsgModel::PriorityProposal { requester_local_id, priority } => {
            assert(b.subrange(i + 1, i + 17) =~= e.subrange(1, 17));
            assert(e.subrange(1, 17) =~= spec_enc_id(requester_local_id));
            lemma_dec_enc_id(b, i + 1, requester_local_id);
            assert(b.subrange(i + 17, i + 33) =~= e.subrange(17, 33));
            assert(e.subrange(17, 33) =~= spec_enc_pri(priority));
            lemma_dec_enc_pri(b, i + 17, priority);
        },
        MsgModel::PriorityMessage { local_id, priority } => {
            assert(b.subrange(i + 1, i + 17) =~= e.subrange(1, 17));
            assert(e.subrange(1, 17) =~= spec_enc_id(local_id));
            lemma_dec_enc_id(b, i + 1, local_id);
            assert(b.subrange(i + 17, i + 33) =~= e.subrange(17, 33));
            assert(e.subrange(17, 33) =~= spec_enc_pri(priority));
            lemma_dec_enc_pri(b, i + 17, priority);
        },
        MsgModel::DirectMessage { message } => {
            let pl = spec_enc_payload(message);
            let pln = pl.len() as int;
            assert(b.subrange(i + 1, i + 1 + pln) =~= e.subrange(1, 1 + pln));
            assert(e.subrange(1, 1 + pln) =~= pl);
            lemma_dec_enc_payload(b, i + 1, message);
        },
    }
}

/// Encoding then decoding any envelope yields an identical value.
pub proof fn lemma_envelope_round_trip(m: EnvelopeModel)
    requires
        m.wf(),
    ensures
        spec_dec_envelope(spec_enc_envelope(m)) == Some(m),
{
    lemma_auto_spec_u64_to_from_le_bytes();
    let b = spec_enc_envelope(m);
    let s = spec_enc_opt_usize(m.sequence_num);
    let f = spec_enc_opt_usize(m.forwarded_for);
    let g = spec_enc_msg(m.msg);
    let sl = s.len() as int;
    let fl = f.len() as int;
    let gl = g.len() as int;
    assert(b.subrange(0, sl) =~= s);
    lemma_dec_enc_opt_usize(b, 0, m.sequence_num);
    assert(b.subrange(sl, sl + fl) =~= f);
    lemma_dec_enc_opt_usize(b, sl, m.forwarded_for);
    assert(b.subrange(sl + fl, sl + fl + gl) =~= g);
    lemma_dec_enc_msg(b, sl + fl, m.msg);
}

/// The encoding is injective: distinct envelopes never share an encoding.
pub proof fn lemma_envelope_encoding_injective(m1: EnvelopeModel, m2: EnvelopeModel)
    requires
        m1.wf(),
        m2.wf(),
        spec_enc_envelope(m1) == spec_enc_envelope(m2),
    ensures
        m1 == m2,
{
    lemma_envelope_round_trip(m1);
    lemma_envelope_round_trip(m2);
}

// ---------------------------------------------------------------------------
// Executable encoder
// ---------------------------------------------------------------------------

fn enc_usize_into(out: &mut Vec<u8>, v: usize)
    ensures
        final(out)@ == old(out)@ + spec_enc_usize(v),
{
    let mut bytes = u64_to_le_bytes(v as u64);
    out.append(&mut bytes);
}

fn enc_opt_usize_into(out: &mut Vec<u8>, o: &Option<usize>)
    ensures
        final(out)@ == old(out)@ + spec_enc_opt_usize(*o),
{
    match o {
        None => {
            out.push(0u8);
            assert(final(out)@ =~= old(out)@ + spec_enc_opt_usize(*o));
        },
        Some(v) => {
            out.push(1u8);
            enc_usize_into(out, *v);
            assert(final(out)@ =~= old(out)@ + spec_enc_opt_usize(*o));
        },
    }
}

fn enc_id_into(out: &mut Vec<u8>, id: &MessageId)
    ensures
        final(out)@ == old(out)@ + spec_enc_id(*id),
{
    enc_usize_into(out, id.original_sender);
    enc_usize_into(out, id.local_id);
    assert(final(out)@ =~= old(out)@ + spec_enc_id(*id));
}

fn enc_pri_into(out: &mut Vec<u8>, p: &MessagePriority)
    ensures
        final(out)@ == old(out)@ + spec_enc_pri(*p),
{
    enc_usize_into(out, p.priority);
    enc_usize_into(out, p.proposer);
    assert(final(out)@ =~= old(out)@ + spec_enc_pri(*p));
}

fn enc_payload_into(out: &mut Vec<u8>, v: &Vec<u8>)
    ensures
        final(out)@ == old(out)@ + spec_enc_payload(v@),
{
    enc_usize_into(out, v.len());
    out.extend_from_slice(v.as_slice());
    assert(final(out)@ =~= old(out)@ + spec_enc_payload(v@));
}

fn enc_msg_into(out: &mut Vec<u8>, m: &TotalOrderNetworkMessage)
    ensures
        final(out)@ == old(out)@ + spec_enc_msg(m@),
{
    match m {
        TotalOrderNetworkMessage::PriorityRequest(a) => {
            out.push(0u8);
            enc_id_into(out, &a.local_id);
            enc_payload_into(out, &a.message);
            assert(final(out)@ =~= old(out)@ + spec_enc_msg(m@));
        },
        TotalOrderNetworkMessage::PriorityProposal(a) => {
            out.push(1u8);
            enc_id_into(out, &a.requester_local_id);
            enc_pri_into(out, &a.priority);
            assert(final(out)@ =~= old(out)@ + spec_enc_msg(m@));
        },
        TotalOrderNetworkMessage::PriorityMessage(a) => {
            out.push(2u8);
            enc_id_into(out, &a.local_id);
            enc_pri_into(out, &a.priority);
            assert(final(out)@ =~= old(out)@ + spec_enc_msg(m@));
        },
        TotalOrderNetworkMessage::DirectMessage(v) => {
            out.push(3u8);
            enc_payload_into(out, v);
            assert(final(out)@ =~= old(out)@ + spec_enc_msg(m@));
        },
    }
}

/// Serialises one envelope into the byte string that goes inside a frame.
pub fn encode_envelope(e: &ReliableNetworkMessage) -> (r: Vec<u8>)
    ensures
        r@ == spec_enc_envelope(e@),
{
    let mut out: Vec<u8> = Vec::new();
    enc_opt_usize_into(&mut out, &e.sequence_num);
    enc_opt_usize_into(&mut out, &e.forwarded_for);
    enc_msg_into(&mut out, &e.msg);
    assert(out@ =~= spec_enc_envelope(e@));
    out
}

// ---------------------------------------------------------------------------
// Executable decoder
// ---------------------------------------------------------------------------

fn dec_usize(b: &Vec<u8>, i: usize) -> (r: Option<(usize, usize)>)
    ensures
        (r matches Some((v, j)) ==> spec_dec_usize(b@, i as int) == Some((v, j as int))),
        (r is None ==> spec_dec_usize(b@, i as int) is None),
{
    if i <= b.len() && b.len() - i >= 8 {
        let s = vstd::slice::slice_subrange(b.as_slice(), i, i + 8);
        let v64 = u64_from_le_bytes(s);
        if v64 <= usize::MAX as u64 {
            Some((v64 as usize, i + 8))
        } else {
            None
        }
    } else {
        None
    }
}

fn dec_opt_usize(b: &Vec<u8>, i: usize) -> (r: Option<(Option<usize>, usize)>)
    ensures
        (r matches Some((o, j)) ==> spec_dec_opt_usize(b@, i as int) == Some((o, j as int))),
        (r is None ==> spec_dec_opt_usize(b@, i as int) is None),
{
    if i < b.len() {
        let tag = b[i];
        if tag == 0 {
            Some((None, i + 1))
        } else if tag == 1 {
            match dec_usize(b, i + 1) {
                Some((v, j)) => Some((Some(v), j)),
                None => None,
            }
        } else {
            None
        }
    } else {
        None
    }
}

fn dec_id(b: &Vec<u8>, i: usize) -> (r: Option<(MessageId, usize)>)
    ensures
        (r matches Some((id, j)) ==> spec_dec_id(b@, i as int) == Some((id, j as int))),
        (r is None ==> spec_dec_id(b@, i as int) is None),
{
    match dec_usize(b, i) {
        Some((original_sender, j)) => match dec_usize(b, j) {
            Some((local_id, k)) => Some((MessageId { original_sender, local_id }, k)),
            None => None,
        },
        None => None,
    }
}

fn dec_pri(b: &Vec<u8>, i: usize) -> (r: Option<(MessagePriority, usize)>)
    ensures
        (r matches Some((p, j)) ==> spec_dec_pri(b@, i as int) == Some((p, j as int))),
        (r is None ==> spec_dec_pri(b@, i as int) is None),
{
    match dec_usize(b, i) {
        Some((priority, j)) => match dec_usize(b, j) {
            Some((proposer, k)) => Some((MessagePriority { priority, proposer }, k)),
            None => None,
        },
        None => None,
    }
}

fn dec_payload(b: &Vec<u8>, i: usize) -> (r: Option<(Vec<u8>, usize)>)
    ensures
        (r matches Some((v, j)) ==> spec_dec_payload(b@, i as int) == Some((v@, j as int))),
        (r is None ==> spec_dec_payload(b@, i as int) is None),
{
    match dec_usize(b, i) {
        Some((n, j)) => {
            if n <= b.len() && j <= b.len() - n {
                let s = vstd::slice::slice_subrange(b.as_slice(), j, j + n);
                let v = vstd::slice::slice_to_vec(s);
                Some((v, j + n))
            } else {
                None
            }
        },
        None => None,
    }
}

fn dec_msg(b: &Vec<u8>, i: usize) -> (r: Option<(TotalOrderNetworkMessage, usize)>)
    ensures
        (r matches Some((m, j)) ==> spec_dec_msg(b@, i as int) == Some((m@, j as int))),
        (r is None ==> spec_dec_msg(b@, i as int) is None),
{
    if i < b.len() {
        let tag = b[i];
        if tag == 0 {
            match dec_id(b, i + 1) {
                Some((local_id, j)) => match dec_payload(b, j) {
                    Some((message, k)) => Some(
                        (
                            TotalOrderNetworkMessage::PriorityRequest(
                                PriorityRequestArgs { local_id, message },
                            ),
                            k,
                        ),
                    ),
                    None => None,
                },
                None => None,
            }
        } else if tag == 1 {
            match dec_id(b, i + 1) {
                Some((requester_local_id, j)) => match dec_pri(b, j) {
                    Some((priority, k)) => Some(
                        (
                            TotalOrderNetworkMessage::PriorityProposal(
                                PriorityProposalArgs { requester_local_id, priority },
                            ),
                            k,
                        ),
                    ),
                    None => None,
                },
                None => None,
            }
        } else if tag == 2 {
            match dec_id(b, i + 1) {
                Some((local_id, j)) => match dec_pri(b, j) {
                    Some((priority, k)) => Some(
                        (
                            TotalOrderNetworkMessage::PriorityMessage(
                                PriorityMessageArgs { local_id, priority },
                            ),
                            k,
                        ),
                    ),
                    None => None,
                },
                None => None,
            }
        } else if tag == 3 {
            match dec_payload(b, i + 1) {
                Some((message, k)) => Some((TotalOrderNetworkMessage::DirectMessage(message), k)),
                None => None,
            }
        } else {
            None
        }
    } else {
        None
    }
}

/// Parses one envelope from a frame payload; the payload must be consumed
/// exactly. Returns nothing on any malformed input.
pub fn decode_envelope(b: &Vec<u8>) -> (r: Option<ReliableNetworkMessage>)
    ensures
        (r matches Some(e) ==> spec_dec_envelope(b@) == Some(e@)),
        (r is None ==> spec_dec_envelope(b@) is None),
{
    match dec_opt_usize(b, 0) {
        Some((sequence_num, i)) => match dec_opt_usize(b, i) {
            Some((forwarded_for, j)) => match dec_msg(b, j) {
                Some((msg, k)) => {
                    if k == b.len() {
                        Some(ReliableNetworkMessage { msg, sequence_num, forwarded_for })
                    } else {
                        None
                    }
                },
                None => None,
            },
            None => None,
        },
        None => None,
    }
}

// ---------------------------------------------------------------------------
// Framing: 4-byte big-endian length, then the payload
// ---------------------------------------------------------------------------

pub open spec fn spec_u32_be(v: u32) -> Seq<u8> {
    let le = spec_u32_to_le_bytes(v);
    seq![le[3], le[2], le[1], le[0]]
}

pub open spec fn spec_frame(payload: Seq<u8>) -> Seq<u8> {
    spec_u32_be(payload.len() as u32) + payload
}

/// Splits one complete frame off the front of a read buffer: the frame's
/// payload and the bytes after the frame. Nothing if the buffer does not yet
/// hold a complete frame.
pub open spec fn spec_frame_split(b: Seq<u8>) -> Option<(Seq<u8>, Seq<u8>)> {
    if b.len() >= 4 {
        let le = seq![b[3], b[2], b[1], b[0]];
        let n = spec_u32_from_le_bytes(le) as int;
        if 4 + n <= b.len() {
            Some((b.subrange(4, 4 + n), b.subrange(4 + n, b.len() as int)))
        } else {
            None
        }
    } else {
        None
    }
}

/// Framing then splitting yields the payload and the trailing bytes exactly.
pub proof fn lemma_frame_round_trip(payload: Seq<u8>, rest: Seq<u8>)
    requires
        payload.len() <= u32::MAX,
    ensures
        spec_frame_split(spec_frame(payload) + rest) == Some((payload, rest)),
{
    lemma_auto_spec_u32_to_from_le_bytes();
    let n = payload.len() as u32;
    let b = spec_frame(payload) + rest;
    let le = spec_u32_to_le_bytes(n);
    assert(seq![b[3], b[2], b[1], b[0]] =~= le);
    assert(spec_u32_from_le_bytes(le) == n);
    assert(b.subrange(4, 4 + payload.len() as int) =~= payload);
    assert(b.subrange(4 + payload.len() as int, b.len() as int) =~= rest);
}

/// Wraps a payload in a length-prefixed frame.
pub fn frame_encode(payload: &Vec<u8>) -> (r: Vec<u8>)
    requires
        payload@.len() <= u32::MAX,
    ensures
        r@ == spec_frame(payload@),
{
    let len32: u32 = payload.len() as u32;
    let le = u32_to_le_bytes(len32);
    proof {
        lemma_auto_spec_u32_to_from_le_bytes();
    }
    let mut out: Vec<u8> = Vec::new();
    out.push(le[3]);
    out.push(le[2]);
    out.push(le[1]);
    out.push(le[0]);
    out.extend_from_slice(payload.as_slice());
    assert(out@ =~= spec_frame(payload@));
    out
}

/// Takes one complete frame off the front of `buf`, if one is there: the
/// payload and the remainder of the buffer.
pub fn frame_split(buf: &Vec<u8>) -> (r: Option<(Vec<u8>, Vec<u8>)>)
    ensures
        (r matches Some((p, rest)) ==> spec_frame_split(buf@) == Some((p@, rest@))),
        (r is None ==> spec_frame_split(buf@) is None),
{
    if buf.len() >= 4 {
        let mut le: Vec<u8> = Vec::new();
        le.push(buf[3]);
        le.push(buf[2]);
        le.push(buf[1]);
        le.push(buf[0]);
        assert(le@ =~= seq![buf@[3], buf@[2], buf@[1], buf@[0]]);
        let n32 = u32_from_le_bytes(le.as_slice());
        proof {
            lemma_auto_spec_u32_to_from_le_bytes();
        }
        let n = n32 as usize;
        if n <= buf.len() - 4 {
            let p = vstd::slice::slice_to_vec(
                vstd::slice::slice_subrange(buf.as_slice(), 4, 4 + n),
            );
            let rest = vstd::slice::slice_to_vec(
                vstd::slice::slice_subrange(buf.as_slice(), 4 + n, buf.len()),
            );
            assert(le@ =~= seq![buf@[3], buf@[2], buf@[1], buf@[0]]);
            Some((p, rest))
        } else {
            None
        }
    } else {
        None
    }
}

} // verus!
