//! The transfer protocol: a Noise_NNpsk0 handshake, then the payload sent
//! as a 4-byte big-endian length frame and chunks that each fit one Noise
//! message; every Noise message travels behind a 2-byte big-endian length.

use vstd::prelude::*;
use vstd::slice::*;
use vstd::string::*;
use crate::text::{decimal, decimal_string};
use crate::wire::{be_bytes, be_value, byte_range, push_be, read_be, lemma_be_bytes_len, lemma_be_value_of_bytes, lemma_be_value_bound};

verus! {

/// The Noise protocol name both sides use.
pub const PATTERN: &'static str = "Noise_NNpsk0_25519_ChaChaPoly_BLAKE2s";
/// The largest Noise message.
pub const MAX_NOISE_MESSAGE: usize = 65535;
/// The authentication tag that encryption adds to every message.
pub const TAG_LEN: usize = 16;
/// The largest plaintext that fits in one Noise message.
pub const MAX_PLAINTEXT: usize = MAX_NOISE_MESSAGE - TAG_LEN;

/// Why a transfer failed.
#[derive(Debug)]
pub enum ProtoError {
    /// Building the handshake state failed; `initiator` tells the side.
    Setup { initiator: bool, cause: snow::Error },
    /// The Noise library refused a message.
    Noise(snow::Error),
    /// The payload is longer than a 4-byte length can announce.
    PayloadTooLarge,
    /// A Noise message is longer than a 2-byte length can announce.
    FrameTooLarge,
    /// The first frame of a transfer is not a 4-byte length.
    InvalidLengthHeader,
    /// The peer announced more bytes than the configured limit.
    OverLimit { announced: usize, limit: usize },
    /// An empty frame arrived before the announced length was reached.
    CutShort,
    /// The frames add up to another length than the one announced.
    LengthMismatch { received: usize, expected: usize },
}

/// The text of an error. Where the Noise library gave the cause, the
/// library's own description of it goes with this text when shown.
pub open spec fn proto_error_message(e: ProtoError) -> Seq<char> {
    match e {
        ProtoError::Setup { initiator, .. } => if initiator {
            "cannot start the Noise handshake"@
        } else {
            "cannot answer the Noise handshake"@
        },
        ProtoError::Noise(_) => "Noise protocol error"@,
        ProtoError::PayloadTooLarge => "payload too large"@,
        ProtoError::FrameTooLarge => "Noise frame too large"@,
        ProtoError::InvalidLengthHeader => "invalid length header"@,
        ProtoError::OverLimit { announced, limit } => "peer announced "@ + decimal(announced as nat)
            + " bytes, over the "@ + decimal(limit as nat) + " limit"@,
        ProtoError::CutShort => "transfer cut short"@,
        ProtoError::LengthMismatch { received, expected } => "received "@ + decimal(
            received as nat,
        ) + " bytes, expected "@ + decimal(expected as nat),
    }
}

impl ProtoError {
    /// The text shown to the user.
    pub fn message(&self) -> (s: String)
        ensures
            s@ == proto_error_message(*self),
    {
        match self {
            ProtoError::Setup { initiator, .. } => if *initiator {
                "cannot start the Noise handshake".to_owned()
            } else {
                "cannot answer the Noise handshake".to_owned()
            },
            ProtoError::Noise(_) => "Noise protocol error".to_owned(),
            ProtoError::PayloadTooLarge => "payload too large".to_owned(),
            ProtoError::FrameTooLarge => "Noise frame too large".to_owned(),
            ProtoError::InvalidLengthHeader => "invalid length header".to_owned(),
            ProtoError::OverLimit { announced, limit } => {
                let mut s = "peer announced ".to_owned();
                let a = decimal_string(*announced as u64);
                let l = decimal_string(*limit as u64);
                s.append(a.as_str());
                s.append(" bytes, over the ");
                s.append(l.as_str());
                s.append(" limit");
                s
            },
            ProtoError::CutShort => "transfer cut short".to_owned(),
            ProtoError::LengthMismatch { received, expected } => {
                let mut s = "received ".to_owned();
                let r = decimal_string(*received as u64);
                let e = decimal_string(*expected as u64);
                s.append(r.as_str());
                s.append(" bytes, expected ");
                s.append(e.as_str());
                s
            },
        }
    }
}

// ---------------------------------------------------------------------------
// Messages on the stream: 2-byte big-endian length, then the message
// ---------------------------------------------------------------------------

/// A message as it travels on the stream.
pub open spec fn raw_frame_bytes(message: Seq<u8>) -> Seq<u8> {
    be_bytes(message.len(), 2) + message
}

/// Puts a message behind its 2-byte length; a message longer than 65535
/// bytes cannot be announced.
pub fn raw_frame(message: &[u8]) -> (res: Result<Vec<u8>, ProtoError>)
    ensures
        message@.len() > 0xffff ==> res matches Err(ProtoError::FrameTooLarge),
        message@.len() <= 0xffff ==> (res matches Ok(v) && v@ == raw_frame_bytes(message@)),
{
    if message.len() > 0xffff {
        return Err(ProtoError::FrameTooLarge);
    }
    let mut out: Vec<u8> = Vec::new();
    push_be(&mut out, message.len() as u64, 2);
    out.extend_from_slice(message);
    proof {
        assert(out@ =~= raw_frame_bytes(message@));
    }
    Ok(out)
}

/// The length of the message that follows a 2-byte prefix.
pub fn raw_frame_len(prefix: [u8; 2]) -> (n: usize)
    ensures
        n == be_value(prefix@),
        n <= 0xffff,
{
    proof {
        lemma_be_value_bound(prefix@);
        reveal_with_fuel(byte_range, 3);
    }
    read_be(prefix.as_slice()) as usize
}

/// The length read in front of a framed message is the message's length.
pub proof fn lemma_raw_frame_len(message: Seq<u8>)
    requires
        message.len() <= 0xffff,
    ensures
        raw_frame_bytes(message).len() == message.len() + 2,
        be_value(raw_frame_bytes(message).take(2)) == message.len(),
        raw_frame_bytes(message).skip(2) == message,
{
    reveal_with_fuel(byte_range, 3);
    lemma_be_bytes_len(message.len(), 2);
    lemma_be_value_of_bytes(message.len(), 2);
    assert(raw_frame_bytes(message).take(2) =~= be_bytes(message.len(), 2));
    assert(raw_frame_bytes(message).skip(2) =~= message);
}

// ---------------------------------------------------------------------------
// The plaintext frames of a transfer
// ---------------------------------------------------------------------------

/// `p` cut into pieces of `size` bytes, the last one possibly shorter, as
/// `<[u8]>::chunks` does.
pub open spec fn chunks(p: Seq<u8>, size: nat) -> Seq<Seq<u8>>
    decreases p.len(),
{
    if p.len() == 0 || size == 0 {
        Seq::empty()
    } else if p.len() <= size {
        seq![p]
    } else {
        seq![p.take(size as int)] + chunks(p.skip(size as int), size)
    }
}

/// The plaintext frames that carry `p`: its length in 4 big-endian bytes,
/// then its chunks of at most `MAX_PLAINTEXT` bytes.
pub open spec fn transfer_frames(p: Seq<u8>) -> Seq<Seq<u8>> {
    seq![be_bytes(p.len(), 4)] + chunks(p, MAX_PLAINTEXT as nat)
}

/// The contents of a list of byte vectors.
pub open spec fn views(v: Seq<Vec<u8>>) -> Seq<Seq<u8>> {
    v.map_values(|f: Vec<u8>| f@)
}

/// The plaintext frames that carry `payload`; a payload whose length does
/// not fit in 4 bytes is refused.
pub fn plaintext_frames(payload: &[u8]) -> (res: Result<Vec<Vec<u8>>, ProtoError>)
    ensures
        payload@.len() > u32::MAX ==> res matches Err(ProtoError::PayloadTooLarge),
        payload@.len() <= u32::MAX ==> (res matches Ok(v) && views(v@) == transfer_frames(payload@)),
{
    if payload.len() > 0xffff_ffff {
        return Err(ProtoError::PayloadTooLarge);
    }
    let mut header: Vec<u8> = Vec::new();
    push_be(&mut header, payload.len() as u64, 4);
    let mut frames: Vec<Vec<u8>> = Vec::new();
    frames.push(header);
    proof {
        assert(header@ =~= be_bytes(payload@.len(), 4));
        assert(payload@.skip(0) =~= payload@);
        assert(views(frames@) =~= seq![be_bytes(payload@.len(), 4)]);
    }
    let mut start: usize = 0;
    while start < payload.len()
        invariant
            start <= payload@.len(),
            views(frames@) + chunks(payload@.skip(start as int), MAX_PLAINTEXT as nat)
                == transfer_frames(payload@),
        decreases payload@.len() - start,
    {
        let end: usize = if payload.len() - start > MAX_PLAINTEXT {
            start + MAX_PLAINTEXT
        } else {
            payload.len()
        };
        let piece = slice_to_vec(slice_subrange(payload, start, end));
        let ghost before = views(frames@);
        let ghost rest = payload@.skip(start as int);
        frames.push(piece);
        proof {
            assert(views(frames@) =~= before + seq![piece@]);
            assert(piece@ =~= rest.take((end - start) as int));
            if rest.len() <= MAX_PLAINTEXT {
                assert(piece@ =~= rest);
                assert(payload@.skip(end as int) =~= Seq::<u8>::empty());
                assert(chunks(rest, MAX_PLAINTEXT as nat) == seq![rest]);
                assert(before + seq![piece@] + chunks(Seq::<u8>::empty(), MAX_PLAINTEXT as nat)
                    =~= before + chunks(rest, MAX_PLAINTEXT as nat));
            } else {
                assert(rest.skip(MAX_PLAINTEXT as int) =~= payload@.skip(end as int));
                assert(before + seq![piece@] + chunks(payload@.skip(end as int), MAX_PLAINTEXT as nat)
                    =~= before + chunks(rest, MAX_PLAINTEXT as nat));
            }
        }
        start = end;
    }
    proof {
        assert(payload@.skip(start as int) =~= Seq::<u8>::empty());
        assert(views(frames@) + Seq::<Seq<u8>>::empty() =~= views(frames@));
    }
    Ok(frames)
}

/// Every chunk is non-empty and fits in one Noise message, and the chunks
/// put together give back the payload.
pub proof fn lemma_chunks(p: Seq<u8>)
    ensures
        forall|i: int|
            0 <= i < chunks(p, MAX_PLAINTEXT as nat).len() ==> 0 < (#[trigger] chunks(
                p,
                MAX_PLAINTEXT as nat,
            )[i]).len() <= MAX_PLAINTEXT,
        flatten(chunks(p, MAX_PLAINTEXT as nat)) == p,
    decreases p.len(),
{
    let n = MAX_PLAINTEXT as nat;
    if p.len() == 0 {
    } else if p.len() <= n {
        assert(flatten(seq![p]) =~= p) by {
            assert(seq![p].drop_first() =~= Seq::<Seq<u8>>::empty());
            assert(flatten(Seq::<Seq<u8>>::empty()) == Seq::<u8>::empty());
            assert(p + Seq::<u8>::empty() =~= p);
        }
    } else {
        lemma_chunks(p.skip(n as int));
        let c = chunks(p, n);
        assert(c.drop_first() =~= chunks(p.skip(n as int), n));
        assert(p.take(n as int) + p.skip(n as int) =~= p);
    }
}

/// All the pieces one after the other.
pub open spec fn flatten(s: Seq<Seq<u8>>) -> Seq<u8>
    decreases s.len(),
{
    if s.len() == 0 {
        Seq::empty()
    } else {
        s[0] + flatten(s.drop_first())
    }
}

// ---------------------------------------------------------------------------
// Putting a transfer back together
// ---------------------------------------------------------------------------

/// A transfer being received: the announced length and the bytes so far.
pub struct Reassembly {
    total: usize,
    received: Vec<u8>,
}

/// The mathematical value of a transfer being received.
pub struct ReassemblyView {
    pub total: nat,
    pub received: Seq<u8>,
}

impl View for Reassembly {
    type V = ReassemblyView;

    closed spec fn view(&self) -> ReassemblyView {
        ReassemblyView { total: self.total as nat, received: self.received@ }
    }
}

/// The state after the length frame `header`, or `None` where it is
/// refused (not 4 bytes, or over `max` bytes).
pub open spec fn started(header: Seq<u8>, max: nat) -> Option<ReassemblyView> {
    if header.len() == 4 && be_value(header) <= max {
        Some(ReassemblyView { total: be_value(header), received: Seq::empty() })
    } else {
        None
    }
}

/// More bytes are awaited.
pub open spec fn awaits_more(r: ReassemblyView) -> bool {
    r.received.len() < r.total
}

/// The state after a chunk, or `None` where the chunk is empty.
pub open spec fn pushed(r: ReassemblyView, chunk: Seq<u8>) -> Option<ReassemblyView> {
    if chunk.len() == 0 {
        None
    } else {
        Some(ReassemblyView { total: r.total, received: r.received + chunk })
    }
}

/// The state after reading chunks while more bytes are awaited; `None`
/// where a chunk is refused or the chunks run out first.
pub open spec fn fed(r: ReassemblyView, chunks: Seq<Seq<u8>>) -> Option<ReassemblyView>
    decreases chunks.len(),
{
    if !awaits_more(r) {
        Some(r)
    } else if chunks.len() == 0 {
        None
    } else {
        match pushed(r, chunks[0]) {
            None => None,
            Some(next) => fed(next, chunks.drop_first()),
        }
    }
}

/// The payload a receiver with limit `max` gets from these frames, or
/// `None` where it refuses them.
pub open spec fn received_payload(frames: Seq<Seq<u8>>, max: nat) -> Option<Seq<u8>> {
    if frames.len() == 0 {
        None
    } else {
        match started(frames[0], max) {
            None => None,
            Some(r) => match fed(r, frames.drop_first()) {
                Some(done) => if done.received.len() == done.total {
                    Some(done.received)
                } else {
                    None
                },
                None => None,
            },
        }
    }
}

impl Reassembly {
    /// The length announced by the peer.
    pub fn total(&self) -> (n: usize)
        ensures
            n == self@.total,
    {
        self.total
    }

    /// The number of bytes received so far.
    pub fn received_len(&self) -> (n: usize)
        ensures
            n == self@.received.len(),
    {
        self.received.len()
    }

    /// Reads the length frame that opens a transfer: it must be 4 bytes,
    /// and the length it announces must not exceed `max_bytes`.
    pub fn start(header: &[u8], max_bytes: usize) -> (res: Result<Reassembly, ProtoError>)
        ensures
            header@.len() != 4 ==> res matches Err(ProtoError::InvalidLengthHeader),
            header@.len() == 4 && be_value(header@) > max_bytes ==> (res matches Err(
                ProtoError::OverLimit { announced, limit },
            ) && announced == be_value(header@) && limit == max_bytes),
            started(header@, max_bytes as nat) matches Some(r) ==> res matches Ok(s) && s@ == r,
    {
        if header.len() != 4 {
            return Err(ProtoError::InvalidLengthHeader);
        }
        proof {
            lemma_be_value_bound(header@);
            reveal_with_fuel(byte_range, 5);
        }
        let total = read_be(header) as usize;
        if total > max_bytes {
            return Err(ProtoError::OverLimit { announced: total, limit: max_bytes });
        }
        let r = Reassembly { total, received: Vec::new() };
        proof {
            assert(r@.received =~= Seq::<u8>::empty());
        }
        Ok(r)
    }

    /// Whether fewer bytes than announced have arrived.
    pub fn needs_more(&self) -> (b: bool)
        ensures
            b == awaits_more(self@),
    {
        self.received.len() < self.total
    }

    /// Adds a chunk; an empty chunk means the peer stopped early.
    pub fn push_chunk(&mut self, chunk: &[u8]) -> (res: Result<(), ProtoError>)
        ensures
            chunk@.len() == 0 ==> (res matches Err(ProtoError::CutShort) && final(self)@ == old(self)@),
            pushed(old(self)@, chunk@) matches Some(r) ==> res is Ok && final(self)@ == r,
            final(self)@.total == old(self)@.total,
            awaits_more(old(self)@) ==> final(self)@.received.len() < final(self)@.total + chunk@.len(),
    {
        if chunk.len() == 0 {
            return Err(ProtoError::CutShort);
        }
        self.received.extend_from_slice(chunk);
        proof {
            assert(self.received@ =~= old(self)@.received + chunk@);
        }
        Ok(())
    }

    /// The payload, once exactly the announced number of bytes arrived.
    pub fn finish(self) -> (res: Result<Vec<u8>, ProtoError>)
        ensures
            self@.received.len() == self@.total ==> (res matches Ok(v) && v@ == self@.received),
            self@.received.len() != self@.total ==> (res matches Err(
                ProtoError::LengthMismatch { received, expected },
            ) && received == self@.received.len() && expected == self@.total),
    {
        if self.received.len() != self.total {
            let received = self.received.len();
            return Err(ProtoError::LengthMismatch { received, expected: self.total });
        }
        Ok(self.received)
    }
}

proof fn lemma_fed_chunks(prefix: Seq<u8>, rest: Seq<u8>, total: nat)
    requires
        prefix.len() + rest.len() == total,
    ensures
        fed(ReassemblyView { total, received: prefix }, chunks(rest, MAX_PLAINTEXT as nat))
            == Some(ReassemblyView { total, received: prefix + rest }),
    decreases rest.len(),
{
    let n = MAX_PLAINTEXT as nat;
    let r = ReassemblyView { total, received: prefix };
    if rest.len() == 0 {
        assert(prefix + rest =~= prefix);
    } else if rest.len() <= n {
        let c = chunks(rest, n);
        assert(c == seq![rest]);
        let next = ReassemblyView { total, received: prefix + rest };
        assert(pushed(r, c[0]) == Some(next));
        assert(c.drop_first() =~= Seq::<Seq<u8>>::empty());
        assert(fed(next, c.drop_first()) == Some(next));
    } else {
        let c = chunks(rest, n);
        let head = rest.take(n as int);
        let tail = rest.skip(n as int);
        assert(c.drop_first() =~= chunks(tail, n));
        assert(c[0] == head);
        lemma_fed_chunks(prefix + head, tail, total);
        assert(prefix + head + tail =~= prefix + rest);
    }
}

/// A transfer arrives whole: a receiver whose limit admits the payload
/// puts together, from the plaintext frames of the sender, exactly the
/// payload that was sent.
pub proof fn lemma_transfer_roundtrip(payload: Seq<u8>, max: nat)
    requires
        payload.len() <= max,
        payload.len() <= u32::MAX,
    ensures
        received_payload(transfer_frames(payload), max) == Some(payload),
{
    let frames = transfer_frames(payload);
    reveal_with_fuel(byte_range, 5);
    lemma_be_bytes_len(payload.len(), 4);
    lemma_be_value_of_bytes(payload.len(), 4);
    assert(frames[0] == be_bytes(payload.len(), 4));
    assert(frames.drop_first() =~= chunks(payload, MAX_PLAINTEXT as nat));
    lemma_fed_chunks(Seq::empty(), payload, payload.len());
    assert(Seq::<u8>::empty() + payload =~= payload);
}

/// A receiver refuses a transfer that announces more than its limit,
/// before it reads any chunk.
pub proof fn lemma_over_limit_refused(payload: Seq<u8>, max: nat)
    requires
        max < payload.len() <= u32::MAX,
    ensures
        received_payload(transfer_frames(payload), max) is None,
{
    reveal_with_fuel(byte_range, 5);
    lemma_be_bytes_len(payload.len(), 4);
    lemma_be_value_of_bytes(payload.len(), 4);
}

proof fn lemma_fed_keeps_total(r: ReassemblyView, chunks: Seq<Seq<u8>>)
    ensures
        fed(r, chunks) matches Some(d) ==> d.total == r.total,
    decreases chunks.len(),
{
    if awaits_more(r) && chunks.len() > 0 {
        if let Some(next) = pushed(r, chunks[0]) {
            lemma_fed_keeps_total(next, chunks.drop_first());
        }
    }
}

/// A receiver holds little more than its limit while it receives: a
/// transfer it started under the limit `max`, fed while it awaits more
/// bytes with chunks that each fit one Noise message, holds fewer than
/// `max + MAX_PLAINTEXT` bytes.
pub proof fn lemma_receive_memory_bound(r: ReassemblyView, chunk: Seq<u8>, max: nat)
    requires
        r.total <= max,
        awaits_more(r),
        chunk.len() <= MAX_PLAINTEXT,
    ensures
        pushed(r, chunk) matches Some(next) ==> next.total == r.total && next.received.len() < max
            + MAX_PLAINTEXT,
{
}

/// A receiver never accepts more than its limit: whatever frames arrive,
/// a payload it puts together is at most `max` bytes long.
pub proof fn lemma_received_within_limit(frames: Seq<Seq<u8>>, max: nat)
    ensures
        received_payload(frames, max) matches Some(p) ==> p.len() <= max,
{
    if frames.len() > 0 {
        if let Some(r) = started(frames[0], max) {
            lemma_fed_keeps_total(r, frames.drop_first());
        }
    }
}

// ---------------------------------------------------------------------------
// The Noise library
// ---------------------------------------------------------------------------

#[verifier::external_type_specification]
#[verifier::external_body]
pub struct ExNoiseError(snow::Error);

#[verifier::external_type_specification]
#[verifier::external_body]
pub struct ExNoiseParams(snow::params::NoiseParams);

#[verifier::external_type_specification]
#[verifier::external_body]
pub struct ExNoiseBuilder<'a>(snow::Builder<'a>);

#[verifier::external_type_specification]
#[verifier::external_body]
pub struct ExHandshakeState(snow::HandshakeState);

#[verifier::external_type_specification]
#[verifier::external_body]
pub struct ExTransportState(snow::TransportState);

// Names for what the Noise states were made with and what went through
// them. The states are opaque; these names follow them through every call.

/// The protocol name of parsed Noise parameters.
pub uninterp spec fn noise_params_name(p: snow::params::NoiseParams) -> Seq<char>;

/// The protocol name a builder was made with.
pub uninterp spec fn noise_builder_protocol(b: snow::Builder) -> Seq<char>;

/// The pre-shared key a builder holds in `slot`, if any.
pub uninterp spec fn noise_builder_psk(b: snow::Builder, slot: u8) -> Option<Seq<u8>>;

/// The protocol name a handshake state runs.
pub uninterp spec fn noise_hs_protocol(hs: snow::HandshakeState) -> Seq<char>;

/// Whether a handshake state was built for the initiating side.
pub uninterp spec fn noise_hs_is_initiator(hs: snow::HandshakeState) -> bool;

/// The pre-shared key a handshake state holds in `slot`, if any.
pub uninterp spec fn noise_hs_psk(hs: snow::HandshakeState, slot: u8) -> Option<Seq<u8>>;

/// The handshake messages a state has written, in order.
pub uninterp spec fn noise_hs_written(hs: snow::HandshakeState) -> Seq<Seq<u8>>;

/// The handshake messages a state has accepted, in order.
pub uninterp spec fn noise_hs_read(hs: snow::HandshakeState) -> Seq<Seq<u8>>;

/// Whether a handshake state, as it stands, accepts `message` as the
/// peer's next handshake message, given room for the message's payload.
/// Reading draws no random value: the outcome depends on the state's
/// keys and transcript and on the message alone.
pub uninterp spec fn noise_hs_accepts(hs: snow::HandshakeState, message: Seq<u8>) -> bool;

/// Whether a responder of `Noise_NNpsk0_25519_ChaChaPoly_BLAKE2s` holding
/// the pre-shared key `psk`, before it has written or read anything,
/// accepts `message` as the initiator's first message. Until it writes,
/// the responder has drawn no random value, so this depends on the key
/// and the message alone.
pub uninterp spec fn nnpsk0_accepts(psk: Seq<u8>, message: Seq<u8>) -> bool;

/// The protocol name a transport state was made under.
pub uninterp spec fn noise_ts_protocol(t: snow::TransportState) -> Seq<char>;

/// Whether a transport state belongs to the initiating side.
pub uninterp spec fn noise_ts_is_initiator(t: snow::TransportState) -> bool;

/// The plaintexts a transport state has encrypted, in order.
pub uninterp spec fn noise_ts_sealed(t: snow::TransportState) -> Seq<Seq<u8>>;

/// The Noise messages (ciphertext and tag) a transport state has written,
/// in order.
pub uninterp spec fn noise_ts_sent(t: snow::TransportState) -> Seq<Seq<u8>>;

/// What a transport state, as it stands, makes of the Noise message
/// `message`, given room for the plaintext: the plaintext when the message
/// decrypts and its tag verifies under the receiving key and the next
/// nonce, or `None`.
pub uninterp spec fn noise_ts_decrypt(t: snow::TransportState, message: Seq<u8>) -> Option<Seq<u8>>;

/// The plaintexts a transport state has decrypted, in order.
pub uninterp spec fn noise_ts_opened(t: snow::TransportState) -> Seq<Seq<u8>>;

/// The name of the protocol the daemon runs.
pub open spec fn nnpsk0_name() -> Seq<char> {
    "Noise_NNpsk0_25519_ChaChaPoly_BLAKE2s"@
}

/// `str::parse::<snow::params::NoiseParams>`: reads a Noise protocol name;
/// the parameters keep the name they were read from. The parser splits the
/// name at `_` and knows each of `Noise`, `NNpsk0`, `25519`, `ChaChaPoly`
/// and `BLAKE2s`, so that name is accepted.
#[verifier::external_body]
fn noise_params(name: &str) -> (res: Result<snow::params::NoiseParams, snow::Error>)
    ensures
        name@ == nnpsk0_name() ==> res is Ok,
        res matches Ok(p) ==> noise_params_name(p) == name@,
{
    name.parse()
}

/// `snow::Builder::new`: a builder for the given parameters, with the
/// default crypto resolver and no pre-shared key in any slot.
#[verifier::external_body]
fn noise_builder<'a>(params: snow::params::NoiseParams) -> (b: snow::Builder<'a>)
    ensures
        noise_builder_protocol(b) == noise_params_name(params),
        forall|slot: u8| #[trigger] noise_builder_psk(b, slot) is None,
{
    snow::Builder::new(params)
}

/// `snow::Builder::psk`: records `key` as the pre-shared key of slot
/// `location`, leaving the protocol and the other slots as they were. The
/// builder indexes an array of 10 slots with `location`, which `requires`
/// keeps in range.
#[verifier::external_body]
fn builder_psk<'a>(b: snow::Builder<'a>, location: u8, key: &'a [u8]) -> (r: snow::Builder<'a>)
    requires
        location < 10,
    ensures
        noise_builder_protocol(r) == noise_builder_protocol(b),
        noise_builder_psk(r, location) == Some(key@),
        forall|slot: u8| slot != location ==> #[trigger] noise_builder_psk(r, slot) == noise_builder_psk(b, slot),
{
    b.psk(location, key)
}

/// The builder runs the daemon's protocol and every key it holds is 32
/// bytes long.
pub open spec fn builds_nnpsk0(b: snow::Builder) -> bool {
    &&& noise_builder_protocol(b) == nnpsk0_name()
    &&& forall|slot: u8| #[trigger] noise_builder_psk(b, slot) matches Some(k) ==> k.len() == 32
}

/// A fresh handshake state for the side `initiator` with the builder's
/// protocol and keys.
pub open spec fn built_from(hs: snow::HandshakeState, b: snow::Builder, initiator: bool) -> bool {
    &&& noise_hs_protocol(hs) == noise_builder_protocol(b)
    &&& noise_hs_is_initiator(hs) == initiator
    &&& forall|slot: u8| #[trigger] noise_hs_psk(hs, slot) == noise_builder_psk(b, slot)
    &&& noise_hs_written(hs) == Seq::<Seq<u8>>::empty()
    &&& noise_hs_read(hs) == Seq::<Seq<u8>>::empty()
}

/// `snow::Builder::build_initiator`: a state for the initiating side with
/// the builder's protocol and keys, nothing written or read yet. For the
/// daemon's protocol (no static keys needed, every primitive in the
/// default resolver) with 32-byte keys it succeeds.
#[verifier::external_body]
fn build_initiator(b: snow::Builder) -> (res: Result<snow::HandshakeState, snow::Error>)
    ensures
        builds_nnpsk0(b) ==> res is Ok,
        res matches Ok(hs) ==> built_from(hs, b, true),
{
    b.build_initiator()
}

/// `snow::Builder::build_responder`: as `build_initiator`, for the
/// responding side.
#[verifier::external_body]
fn build_responder(b: snow::Builder) -> (res: Result<snow::HandshakeState, snow::Error>)
    ensures
        builds_nnpsk0(b) ==> res is Ok,
        res matches Ok(hs) ==> built_from(hs, b, false),
{
    b.build_responder()
}

/// The protocol, the role, the keys and the messages read are the same in
/// both states.
pub open spec fn same_setup_and_reads(a: snow::HandshakeState, b: snow::HandshakeState) -> bool {
    &&& noise_hs_protocol(a) == noise_hs_protocol(b)
    &&& noise_hs_is_initiator(a) == noise_hs_is_initiator(b)
    &&& forall|slot: u8| #[trigger] noise_hs_psk(a, slot) == noise_hs_psk(b, slot)
    &&& noise_hs_read(a) == noise_hs_read(b)
}

/// A state of the daemon's protocol with a 32-byte key in slot 0, whose
/// turn it is to write its first message: the initiator at the start, or
/// the responder after reading the initiator's message.
pub open spec fn nnpsk0_turn_to_write(hs: snow::HandshakeState) -> bool {
    &&& noise_hs_protocol(hs) == nnpsk0_name()
    &&& noise_hs_psk(hs, 0) matches Some(k) && k.len() == 32
    &&& noise_hs_written(hs) == Seq::<Seq<u8>>::empty()
    &&& if noise_hs_is_initiator(hs) {
        noise_hs_read(hs) == Seq::<Seq<u8>>::empty()
    } else {
        noise_hs_read(hs).len() == 1
    }
}

/// `snow::HandshakeState::write_message`: writes the next handshake
/// message into `message` and returns its length, which never exceeds the
/// buffer. The message written is recorded; protocol, role, keys and
/// messages read stay. In the daemon's protocol each side's only message
/// with an empty payload is an ephemeral key (32 bytes) and a tag (16
/// bytes), so it is written whenever it is that side's turn. Its bytes
/// depend on fresh ephemeral keys and are not stated. `requires` gives a
/// buffer of a full Noise message, so the writes into it stay in bounds.
#[verifier::external_body]
fn handshake_write(
    hs: &mut snow::HandshakeState,
    payload: &[u8],
    message: &mut Vec<u8>,
) -> (res: Result<usize, snow::Error>)
    requires
        old(message)@.len() >= 65535,
    ensures
        final(message)@.len() == old(message)@.len(),
        same_setup_and_reads(*final(hs), *old(hs)),
        nnpsk0_turn_to_write(*old(hs)) && payload@.len() == 0 ==> (res matches Ok(n) && n == 48),
        res matches Ok(n) ==> n <= old(message)@.len() && noise_hs_written(*final(hs))
            == noise_hs_written(*old(hs)).push(final(message)@.take(n as int)),
        res is Err ==> noise_hs_written(*final(hs)) == noise_hs_written(*old(hs)),
{
    hs.write_message(payload, message)
}

/// `snow::HandshakeState::read_message`: reads the peer's handshake
/// message, writing its payload into `payload`. A message longer than
/// 65535 bytes is refused before anything else. An accepted message is
/// recorded; protocol, role, keys and messages written stay. With room
/// for the payload, a message is accepted exactly as `noise_hs_accepts`
/// names it; for a fresh responder of the daemon's protocol, where the
/// state holds nothing but the key, that is as `nnpsk0_accepts` names it.
#[verifier::external_body]
fn handshake_read(
    hs: &mut snow::HandshakeState,
    message: &[u8],
    payload: &mut Vec<u8>,
) -> (res: Result<usize, snow::Error>)
    ensures
        final(payload)@.len() == old(payload)@.len(),
        message@.len() > 65535 ==> res is Err,
        noise_hs_protocol(*final(hs)) == noise_hs_protocol(*old(hs)),
        noise_hs_is_initiator(*final(hs)) == noise_hs_is_initiator(*old(hs)),
        forall|slot: u8| #[trigger] noise_hs_psk(*final(hs), slot) == noise_hs_psk(*old(hs), slot),
        noise_hs_written(*final(hs)) == noise_hs_written(*old(hs)),
        res is Ok ==> noise_hs_read(*final(hs)) == noise_hs_read(*old(hs)).push(message@),
        res is Err ==> noise_hs_read(*final(hs)) == noise_hs_read(*old(hs)),
        old(payload)@.len() >= message@.len() ==> (res is Ok <==> noise_hs_accepts(*old(hs), message@)),
        ({
            &&& noise_hs_protocol(*old(hs)) == nnpsk0_name()
            &&& !noise_hs_is_initiator(*old(hs))
            &&& noise_hs_written(*old(hs)) == Seq::<Seq<u8>>::empty()
            &&& noise_hs_read(*old(hs)) == Seq::<Seq<u8>>::empty()
            &&& old(payload)@.len() >= message@.len()
        }) ==> (noise_hs_psk(*old(hs), 0) matches Some(k) ==> (res is Ok <==> (message@.len() <= 65535
            && nnpsk0_accepts(k, message@)))),
{
    hs.read_message(message, payload)
}

/// `snow::HandshakeState::into_transport_mode`: a transport state for the
/// same protocol and side, with nothing encrypted or decrypted yet. It
/// fails only while the handshake is unfinished; the daemon's protocol is
/// finished after its two messages.
#[verifier::external_body]
fn into_transport(hs: snow::HandshakeState) -> (res: Result<snow::TransportState, snow::Error>)
    ensures
        noise_hs_protocol(hs) == nnpsk0_name() && noise_hs_written(hs).len() + noise_hs_read(hs).len()
            == 2 ==> res is Ok,
        res matches Ok(t) ==> {
            &&& noise_ts_protocol(t) == noise_hs_protocol(hs)
            &&& noise_ts_is_initiator(t) == noise_hs_is_initiator(hs)
            &&& noise_ts_sealed(t) == Seq::<Seq<u8>>::empty()
            &&& noise_ts_sent(t) == Seq::<Seq<u8>>::empty()
            &&& noise_ts_opened(t) == Seq::<Seq<u8>>::empty()
        },
{
    hs.into_transport_mode()
}

/// `snow::TransportState::write_message`: encrypts `payload` into
/// `message`. It refuses a payload that with its 16-byte tag exceeds 65535
/// bytes or the buffer; in a two-way protocol such as the daemon's it
/// otherwise fails only once its message counter, which counts the
/// messages encrypted, reaches `u64::MAX`. On success it returns the
/// payload length plus the tag, and the payload and the message written
/// are recorded. The ciphertext bytes depend on the session keys and the
/// counter and are not stated.
#[verifier::external_body]
fn transport_write(
    t: &mut snow::TransportState,
    payload: &[u8],
    message: &mut Vec<u8>,
) -> (res: Result<usize, snow::Error>)
    ensures
        final(message)@.len() == old(message)@.len(),
        payload@.len() + 16 > 65535 || payload@.len() + 16 > old(message)@.len() ==> res is Err,
        noise_ts_protocol(*old(t)) == nnpsk0_name() && payload@.len() + 16 <= 65535 && payload@.len() + 16
            <= old(message)@.len() && noise_ts_sealed(*old(t)).len() < u64::MAX ==> res is Ok,
        noise_ts_protocol(*final(t)) == noise_ts_protocol(*old(t)),
        noise_ts_is_initiator(*final(t)) == noise_ts_is_initiator(*old(t)),
        noise_ts_opened(*final(t)) == noise_ts_opened(*old(t)),
        res matches Ok(n) ==> {
            &&& n == payload@.len() + 16
            &&& n <= old(message)@.len()
            &&& noise_ts_sealed(*final(t)) == noise_ts_sealed(*old(t)).push(payload@)
            &&& noise_ts_sent(*final(t)) == noise_ts_sent(*old(t)).push(final(message)@.take(n as int))
        },
        res is Err ==> noise_ts_sealed(*final(t)) == noise_ts_sealed(*old(t)) && noise_ts_sent(*final(t))
            == noise_ts_sent(*old(t)),
{
    t.write_message(payload, message)
}

/// `snow::TransportState::read_message`: decrypts `payload` into
/// `message`. With room for the plaintext it succeeds exactly when
/// `noise_ts_decrypt` names a plaintext, and any plaintext it writes, at
/// the start of `message`, is that one: the ciphertext less its 16-byte
/// tag. The plaintext is recorded; nothing else about the state that the
/// names follow changes.
#[verifier::external_body]
fn transport_read(
    t: &mut snow::TransportState,
    payload: &[u8],
    message: &mut Vec<u8>,
) -> (res: Result<usize, snow::Error>)
    ensures
        final(message)@.len() == old(message)@.len(),
        noise_ts_protocol(*final(t)) == noise_ts_protocol(*old(t)),
        noise_ts_is_initiator(*final(t)) == noise_ts_is_initiator(*old(t)),
        noise_ts_sealed(*final(t)) == noise_ts_sealed(*old(t)),
        noise_ts_sent(*final(t)) == noise_ts_sent(*old(t)),
        old(message)@.len() >= payload@.len() ==> (res is Ok <==> noise_ts_decrypt(*old(t), payload@) is Some),
        res matches Ok(n) ==> {
            &&& n + 16 == payload@.len()
            &&& n <= old(message)@.len()
            &&& noise_ts_decrypt(*old(t), payload@) == Some(final(message)@.take(n as int))
            &&& noise_ts_opened(*final(t)) == noise_ts_opened(*old(t)).push(final(message)@.take(n as int))
        },
        res is Err ==> noise_ts_opened(*final(t)) == noise_ts_opened(*old(t)),
{
    t.read_message(payload, message)
}

/// A failure of the Noise library, in setting up the side `initiator` or
/// later.
pub open spec fn is_noise_failure(e: ProtoError, initiator: bool) -> bool {
    ||| e matches ProtoError::Noise(_)
    ||| e matches ProtoError::Setup { initiator: i, .. } && i == initiator
}

/// The handshake state for the side `initiator`, running `PATTERN` with
/// the pre-shared key in slot 0 and no other. It is always built.
fn new_handshake(psk: &[u8; 32], initiator: bool) -> (res: Result<snow::HandshakeState, ProtoError>)
    ensures
        res matches Ok(hs) ==> {
            &&& noise_hs_protocol(hs) == PATTERN@
            &&& noise_hs_is_initiator(hs) == initiator
            &&& noise_hs_psk(hs, 0) == Some(psk@)
            &&& forall|slot: u8| slot != 0 ==> #[trigger] noise_hs_psk(hs, slot) is None
            &&& noise_hs_written(hs) == Seq::<Seq<u8>>::empty()
            &&& noise_hs_read(hs) == Seq::<Seq<u8>>::empty()
        },
        res is Ok,
{
    let params = match noise_params(PATTERN) {
        Ok(p) => p,
        Err(e) => return Err(ProtoError::Noise(e)),
    };
    let builder = builder_psk(noise_builder(params), 0, psk.as_slice());
    proof {
        assert(PATTERN@ == nnpsk0_name());
        assert(builds_nnpsk0(builder));
    }
    let built = if initiator {
        build_initiator(builder)
    } else {
        build_responder(builder)
    };
    match built {
        Ok(hs) => Ok(hs),
        Err(cause) => Err(ProtoError::Setup { initiator, cause }),
    }
}

/// Writes this side's handshake message and puts it behind its length:
/// the wire bytes carry the message just recorded as written.
fn handshake_frame(hs: &mut snow::HandshakeState) -> (res: Result<Vec<u8>, ProtoError>)
    ensures
        same_setup_and_reads(*final(hs), *old(hs)),
        nnpsk0_turn_to_write(*old(hs)) ==> res is Ok,
        res matches Ok(wire) ==> {
            let written = noise_hs_written(*final(hs));
            &&& written.len() == noise_hs_written(*old(hs)).len() + 1
            &&& written.drop_last() == noise_hs_written(*old(hs))
            &&& written.last().len() <= MAX_NOISE_MESSAGE
            &&& wire@ == raw_frame_bytes(written.last())
        },
        res is Err ==> noise_hs_written(*final(hs)) == noise_hs_written(*old(hs)),
        res matches Err(e) ==> e matches ProtoError::Noise(_),
{
    let mut buf: Vec<u8> = vec![0u8; MAX_NOISE_MESSAGE];
    let len = match handshake_write(hs, &[], &mut buf) {
        Ok(n) => n,
        Err(e) => return Err(ProtoError::Noise(e)),
    };
    let message = slice_subrange(buf.as_slice(), 0, len);
    let wire = raw_frame(message)?;
    proof {
        assert(message@ == buf@.take(len as int));
        assert(noise_hs_written(*hs).drop_last() =~= noise_hs_written(*old(hs)));
    }
    Ok(wire)
}

/// A Noise handshake under way.
pub struct PendingHandshake {
    state: snow::HandshakeState,
}

/// What a handshake under way was made with and what went through it.
pub struct HandshakeView {
    /// The Noise protocol it runs.
    pub protocol: Seq<char>,
    /// Built for the initiating side.
    pub initiator: bool,
    /// The pre-shared key in slot 0.
    pub psk: Option<Seq<u8>>,
    /// The handshake messages written, in order.
    pub written: Seq<Seq<u8>>,
    /// The handshake messages accepted, in order.
    pub read: Seq<Seq<u8>>,
}

impl View for PendingHandshake {
    type V = HandshakeView;

    closed spec fn view(&self) -> HandshakeView {
        HandshakeView {
            protocol: noise_hs_protocol(self.state),
            initiator: noise_hs_is_initiator(self.state),
            psk: noise_hs_psk(self.state, 0),
            written: noise_hs_written(self.state),
            read: noise_hs_read(self.state),
        }
    }
}

impl PendingHandshake {
    /// Whether the handshake, as it stands, accepts `message` as the peer's
    /// next handshake message.
    pub closed spec fn accepts_reply(&self, message: Seq<u8>) -> bool {
        noise_hs_accepts(self.state, message)
    }

    /// Starts the handshake as the side that connects, under the
    /// pre-shared key `psk`: returns the state and its first message,
    /// framed for the stream. It always succeeds.
    pub fn initiate(psk: &[u8; 32]) -> (res: Result<(PendingHandshake, Vec<u8>), ProtoError>)
        ensures
            res is Ok,
            res matches Ok((p, wire)) ==> {
                &&& p@.protocol == PATTERN@
                &&& p@.initiator
                &&& p@.psk == Some(psk@)
                &&& p@.read == Seq::<Seq<u8>>::empty()
                &&& p@.written.len() == 1
                &&& p@.written[0].len() <= MAX_NOISE_MESSAGE
                &&& wire@ == raw_frame_bytes(p@.written[0])
            },
            res matches Err(e) ==> is_noise_failure(e, true),
    {
        let mut state = new_handshake(psk, true)?;
        let wire = handshake_frame(&mut state)?;
        let p = PendingHandshake { state };
        proof {
            assert(p@.written.drop_last() == Seq::<Seq<u8>>::empty());
            assert(p@.written[0] == p@.written.last());
        }
        Ok((p, wire))
    }

    /// Answers the handshake as the side that was connected to, under the
    /// pre-shared key `psk`: reads the peer's first message (without its
    /// length) and returns the state and the reply, framed for the stream.
    /// It succeeds exactly when the message fits a Noise message and a
    /// responder holding `psk` accepts it.
    pub fn answer(psk: &[u8; 32], request: &[u8]) -> (res: Result<(PendingHandshake, Vec<u8>), ProtoError>)
        ensures
            res is Ok <==> (request@.len() <= MAX_NOISE_MESSAGE && nnpsk0_accepts(psk@, request@)),
            res matches Ok((p, wire)) ==> {
                &&& p@.protocol == PATTERN@
                &&& !p@.initiator
                &&& p@.psk == Some(psk@)
                &&& p@.read == seq![request@]
                &&& p@.written.len() == 1
                &&& p@.written[0].len() <= MAX_NOISE_MESSAGE
                &&& wire@ == raw_frame_bytes(p@.written[0])
            },
            res matches Err(e) ==> is_noise_failure(e, false),
    {
        let mut state = new_handshake(psk, false)?;
        let mut buf: Vec<u8> = vec![0u8; MAX_NOISE_MESSAGE];
        if let Err(e) = handshake_read(&mut state, request, &mut buf) {
            return Err(ProtoError::Noise(e));
        }
        let wire = handshake_frame(&mut state)?;
        let p = PendingHandshake { state };
        proof {
            assert(Seq::<Seq<u8>>::empty().push(request@) =~= seq![request@]);
            assert(p@.written.drop_last() == Seq::<Seq<u8>>::empty());
            assert(p@.written[0] == p@.written.last());
        }
        Ok((p, wire))
    }

    /// Reads the peer's reply (without its length) on the connecting side:
    /// it succeeds exactly when the reply fits a Noise message and the
    /// handshake accepts it, and an accepted reply is recorded as read.
    pub fn read_reply(&mut self, response: &[u8]) -> (res: Result<(), ProtoError>)
        ensures
            res is Ok <==> (response@.len() <= MAX_NOISE_MESSAGE && old(self).accepts_reply(response@)),
            response@.len() > MAX_NOISE_MESSAGE ==> res matches Err(ProtoError::Noise(_)),
            res matches Err(e) ==> e matches ProtoError::Noise(_),
            final(self)@.protocol == old(self)@.protocol,
            final(self)@.initiator == old(self)@.initiator,
            final(self)@.psk == old(self)@.psk,
            final(self)@.written == old(self)@.written,
            res is Ok ==> final(self)@.read == old(self)@.read.push(response@),
            res is Err ==> final(self)@.read == old(self)@.read,
    {
        let mut buf: Vec<u8> = vec![0u8; MAX_NOISE_MESSAGE];
        match handshake_read(&mut self.state, response, &mut buf) {
            Ok(_) => Ok(()),
            Err(e) => Err(ProtoError::Noise(e)),
        }
    }

    /// Ends the handshake and keeps its keys for the transfer: the channel
    /// runs the same protocol for the same side and has carried nothing
    /// yet. Once two messages of `PATTERN` went through (one written, one
    /// read), it succeeds.
    pub fn into_channel(self) -> (res: Result<Channel, ProtoError>)
        ensures
            self@.protocol == PATTERN@ && self@.written.len() + self@.read.len() == 2 ==> res is Ok,
            res matches Err(e) ==> e matches ProtoError::Noise(_),
            res matches Ok(ch) ==> {
                &&& ch@.protocol == self@.protocol
                &&& ch@.initiator == self@.initiator
                &&& ch@.sealed == Seq::<Seq<u8>>::empty()
                &&& ch@.sent == Seq::<Seq<u8>>::empty()
                &&& ch@.opened == Seq::<Seq<u8>>::empty()
            },
    {
        proof {
            assert(PATTERN@ == nnpsk0_name());
        }
        match into_transport(self.state) {
            Ok(transport) => Ok(Channel { transport }),
            Err(e) => Err(ProtoError::Noise(e)),
        }
    }
}

/// The encrypted channel after the handshake.
pub struct Channel {
    transport: snow::TransportState,
}

/// What went through an encrypted channel.
pub struct ChannelView {
    /// The Noise protocol it runs.
    pub protocol: Seq<char>,
    /// The channel belongs to the initiating side.
    pub initiator: bool,
    /// The plaintexts encrypted, in order.
    pub sealed: Seq<Seq<u8>>,
    /// The Noise messages written for them, in order.
    pub sent: Seq<Seq<u8>>,
    /// The plaintexts decrypted, in order.
    pub opened: Seq<Seq<u8>>,
}

impl View for Channel {
    type V = ChannelView;

    closed spec fn view(&self) -> ChannelView {
        ChannelView {
            protocol: noise_ts_protocol(self.transport),
            initiator: noise_ts_is_initiator(self.transport),
            sealed: noise_ts_sealed(self.transport),
            sent: noise_ts_sent(self.transport),
            opened: noise_ts_opened(self.transport),
        }
    }
}

impl Channel {
    /// What the channel, as it stands, makes of the Noise message
    /// `message`: the plaintext, or `None` when it does not decrypt.
    pub closed spec fn decrypts(&self, message: Seq<u8>) -> Option<Seq<u8>> {
        noise_ts_decrypt(self.transport, message)
    }

    /// Encrypts one plaintext frame and puts it behind its length: the
    /// plaintext is recorded as sealed, the Noise message written for it
    /// (of its length plus the 16-byte tag) as sent, and the wire bytes
    /// carry that message. On a channel of `PATTERN`, a plaintext of at most
    /// `MAX_PLAINTEXT` bytes is sealed as long as the message counter has
    /// not run out; a longer one
    /// is refused and the channel stays as it was.
    pub fn seal(&mut self, plaintext: &[u8]) -> (res: Result<Vec<u8>, ProtoError>)
        requires
            plaintext@.len() <= usize::MAX - TAG_LEN,
        ensures
            plaintext@.len() > MAX_PLAINTEXT ==> res is Err,
            old(self)@.protocol == PATTERN@ && plaintext@.len() <= MAX_PLAINTEXT && old(self)@.sealed.len()
                < u64::MAX ==> res is Ok,
            res matches Err(e) ==> e matches ProtoError::Noise(_),
            final(self)@.protocol == old(self)@.protocol,
            final(self)@.initiator == old(self)@.initiator,
            final(self)@.opened == old(self)@.opened,
            res matches Ok(wire) ==> {
                &&& final(self)@.sealed == old(self)@.sealed.push(plaintext@)
                &&& final(self)@.sent.len() == old(self)@.sent.len() + 1
                &&& final(self)@.sent.drop_last() == old(self)@.sent
                &&& final(self)@.sent.last().len() == plaintext@.len() + TAG_LEN
                &&& wire@ == raw_frame_bytes(final(self)@.sent.last())
            },
            res is Err ==> final(self)@.sealed == old(self)@.sealed && final(self)@.sent == old(self)@.sent,
    {
        proof {
            assert(PATTERN@ == nnpsk0_name());
        }
        let mut buf: Vec<u8> = vec![0u8; plaintext.len() + TAG_LEN];
        let len = match transport_write(&mut self.transport, plaintext, &mut buf) {
            Ok(n) => n,
            Err(e) => return Err(ProtoError::Noise(e)),
        };
        let message = slice_subrange(buf.as_slice(), 0, len);
        let wire = raw_frame(message)?;
        proof {
            assert(message@ == buf@.take(len as int));
            assert(self@.sent.drop_last() =~= old(self)@.sent);
            assert(wire@ == raw_frame_bytes(message@));
        }
        Ok(wire)
    }

    /// Decrypts one Noise message (without its length): it succeeds exactly
    /// when the channel decrypts the message, and returns that plaintext,
    /// the message less its 16-byte tag, recorded as opened. A refused
    /// message leaves the channel as it was.
    pub fn open(&mut self, ciphertext: &[u8]) -> (res: Result<Vec<u8>, ProtoError>)
        ensures
            res is Ok <==> old(self).decrypts(ciphertext@) is Some,
            res matches Ok(p) ==> old(self).decrypts(ciphertext@) == Some(p@),
            res matches Ok(p) ==> p@.len() + TAG_LEN == ciphertext@.len(),
            res matches Err(e) ==> e matches ProtoError::Noise(_),
            final(self)@.protocol == old(self)@.protocol,
            final(self)@.initiator == old(self)@.initiator,
            final(self)@.sealed == old(self)@.sealed,
            final(self)@.sent == old(self)@.sent,
            res matches Ok(p) ==> final(self)@.opened == old(self)@.opened.push(p@),
            res is Err ==> final(self)@.opened == old(self)@.opened,
    {
        let mut buf: Vec<u8> = vec![0u8; ciphertext.len()];
        let len = match transport_read(&mut self.transport, ciphertext, &mut buf) {
            Ok(n) => n,
            Err(e) => return Err(ProtoError::Noise(e)),
        };
        let ghost full = buf@;
        buf.truncate(len);
        proof {
            assert(buf@ =~= full.take(len as int));
        }
        Ok(buf)
    }
}

/// A payload crosses the encrypted channel whole: when the receiver opens,
/// in order, exactly the frames the sender sealed for the payload, it puts
/// the payload back together.
pub proof fn lemma_channel_transfer(sender: ChannelView, receiver: ChannelView, payload: Seq<u8>, max: nat)
    requires
        sender.sealed == transfer_frames(payload),
        receiver.opened == sender.sealed,
        payload.len() <= max,
        payload.len() <= u32::MAX,
    ensures
        received_payload(receiver.opened, max) == Some(payload),
{
    lemma_transfer_roundtrip(payload, max);
}

} // verus!
