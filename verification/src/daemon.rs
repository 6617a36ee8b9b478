//! The decisions of the running daemon: which clipboard changes to send,
//! what a received payload does to the clipboard state, and which peers
//! may connect.

use vstd::prelude::*;
use crate::clip::{Payload, PayloadView, PayloadError, fingerprint_of, encodable, encoding, description};
use crate::text::{decimal, decimal_string};
use vstd::string::*;

verus! {

/// Whether two byte strings are equal.
pub fn bytes_equal(a: &[u8], b: &[u8]) -> (r: bool)
    ensures
        r == (a@ == b@),
{
    if a.len() != b.len() {
        return false;
    }
    let mut i: usize = 0;
    while i < a.len()
        invariant
            i <= a@.len(),
            a@.len() == b@.len(),
            forall|j: int| 0 <= j < i ==> a@[j] == b@[j],
        decreases a@.len() - i,
    {
        if a[i] != b[i] {
            return false;
        }
        i = i + 1;
    }
    proof {
        assert(a@ =~= b@);
    }
    true
}

/// The fingerprint last read from or written to the clipboard, if any.
pub struct SyncState {
    seen: Option<[u8; 32]>,
}

impl View for SyncState {
    type V = Option<Seq<u8>>;

    closed spec fn view(&self) -> Option<Seq<u8>> {
        match self.seen {
            Some(f) => Some(f@),
            None => None,
        }
    }
}

/// The state after the clipboard was read: the fingerprint of what it
/// holds, or the old state where it holds nothing usable.
pub open spec fn after_local_read(seen: Option<Seq<u8>>, current: Option<PayloadView>) -> Option<Seq<u8>> {
    match current {
        Some(p) => Some(fingerprint_of(p)),
        None => seen,
    }
}

/// A clipboard read is sent to the peer: it holds a payload whose
/// fingerprint differs from the one last seen.
pub open spec fn is_local_change(seen: Option<Seq<u8>>, current: Option<PayloadView>) -> bool {
    match current {
        Some(p) => seen != Some(fingerprint_of(p)),
        None => false,
    }
}

/// The state after a payload from the peer was put on the clipboard.
pub open spec fn after_received(p: PayloadView) -> Option<Seq<u8>> {
    Some(fingerprint_of(p))
}

impl SyncState {
    /// The state at start-up: the fingerprint of what the clipboard holds.
    pub fn new(initial: Option<&Payload>) -> (s: SyncState)
        ensures
            s@ == (match initial {
                Some(p) => Some(fingerprint_of(p@)),
                None => None::<Seq<u8>>,
            }),
    {
        match initial {
            Some(p) => SyncState { seen: Some(p.fingerprint()) },
            None => SyncState { seen: None },
        }
    }

    /// Takes a clipboard read: returns the payload when it is a change to
    /// send to the peer, and remembers its fingerprint.
    pub fn take_local_change(&mut self, current: Option<Payload>) -> (res: Option<Payload>)
        ensures
            final(self)@ == after_local_read(old(self)@, option_view(current)),
            is_local_change(old(self)@, option_view(current)) ==> res == current,
            !is_local_change(old(self)@, option_view(current)) ==> res is None,
    {
        let payload = match current {
            Some(p) => p,
            None => return None,
        };
        let fingerprint = payload.fingerprint();
        if let Some(seen) = &self.seen {
            if bytes_equal(seen.as_slice(), fingerprint.as_slice()) {
                return None;
            }
        }
        self.seen = Some(fingerprint);
        Some(payload)
    }

    /// Reads a payload received from the peer and remembers its
    /// fingerprint, so that it is not sent back when it shows up on the
    /// local clipboard. Bytes that do not decode leave the state as it is.
    pub fn apply_received(&mut self, body: &[u8]) -> (res: Result<Payload, PayloadError>)
        ensures
            match crate::clip::decoding(body@) {
                Ok(p) => res matches Ok(q) && q@ == p && final(self)@ == after_received(p),
                Err(e) => res matches Err(f) && f == e && final(self)@ == old(self)@,
            },
    {
        let payload = Payload::decode(body)?;
        self.seen = Some(payload.fingerprint());
        Ok(payload)
    }
}

/// The view of an optional payload.
pub open spec fn option_view(p: Option<Payload>) -> Option<PayloadView> {
    match p {
        Some(q) => Some(q@),
        None => None,
    }
}

/// What a payload received from the peer does to the next clipboard read:
/// when that read finds the same payload, it is not sent back (no echo).
pub proof fn lemma_received_is_not_echoed(p: PayloadView)
    ensures
        !is_local_change(after_received(p), Some(p)),
{
}

/// A change is sent once: reading the same payload again right after it
/// was sent sends nothing.
pub proof fn lemma_change_sent_once(seen: Option<Seq<u8>>, p: PayloadView)
    ensures
        !is_local_change(after_local_read(seen, Some(p)), Some(p)),
{
}

/// A clipboard read whose fingerprint differs from the last one seen is
/// always sent.
pub proof fn lemma_new_content_is_sent(seen: Option<Seq<u8>>, p: PayloadView)
    requires
        seen != Some(fingerprint_of(p)),
    ensures
        is_local_change(seen, Some(p)),
{
}

/// Why a payload was not sent.
#[derive(Debug, Clone, Copy, PartialEq, Eq, Structural)]
pub enum PushError {
    /// The payload could not be encoded.
    Encode(PayloadError),
    /// The encoded payload exceeds the limit.
    TooLarge { size: usize, limit: usize },
}

/// The bytes sent for a payload: its encoding, unless that exceeds
/// `max_bytes`.
pub open spec fn push_body(p: PayloadView, max_bytes: nat) -> Result<Seq<u8>, PushError> {
    match encoding(p) {
        Ok(b) => if b.len() > max_bytes {
            Err(PushError::TooLarge { size: b.len() as usize, limit: max_bytes as usize })
        } else {
            Ok(b)
        },
        Err(e) => Err(PushError::Encode(e)),
    }
}

/// The daemon never sends more than its limit: the bytes it sends for any
/// payload are at most `max_bytes` long.
pub proof fn lemma_push_within_limit(p: PayloadView, max_bytes: nat)
    ensures
        push_body(p, max_bytes) matches Ok(b) ==> b.len() <= max_bytes,
{
}

/// The limit is held against the encoded bytes alone: a payload whose
/// encoding fits is sent as exactly that encoding, one whose encoding is
/// longer is refused with the encoding's length, and one that does not
/// encode is refused with the encoder's error. How many raw pixels an
/// image has plays no part: two payloads with the same encoding fare the
/// same, and what is sent under a limit is sent under any larger one.
pub proof fn lemma_push_compares_encoding(p: PayloadView, q: PayloadView, max_bytes: nat, larger: nat)
    requires
        max_bytes <= larger,
    ensures
        match encoding(p) {
            Ok(b) => if b.len() <= max_bytes {
                push_body(p, max_bytes) == Ok::<Seq<u8>, PushError>(b)
            } else {
                push_body(p, max_bytes) == Err::<Seq<u8>, PushError>(
                    PushError::TooLarge { size: b.len() as usize, limit: max_bytes as usize },
                )
            },
            Err(e) => push_body(p, max_bytes) == Err::<Seq<u8>, PushError>(PushError::Encode(e)),
        },
        encoding(p) == encoding(q) ==> push_body(p, max_bytes) == push_body(q, max_bytes),
        push_body(p, max_bytes) matches Ok(b) ==> push_body(p, larger) == Ok::<Seq<u8>, PushError>(b),
{
}

/// Encodes a payload for the peer and checks it against the limit.
pub fn push_body_of(payload: &Payload, max_bytes: usize) -> (res: Result<Vec<u8>, PushError>)
    requires
        encodable(payload@),
    ensures
        encoding(payload@) matches Ok(b) ==> (b.len() <= max_bytes ==> (res matches Ok(v) && v@ == b)),
        encoding(payload@) matches Ok(b) ==> (b.len() > max_bytes ==> (res matches Err(
            PushError::TooLarge { size, limit },
        ) && size == b.len() && limit == max_bytes)),
        match push_body(payload@, max_bytes as nat) {
            Ok(b) => res matches Ok(v) && v@ == b,
            Err(e) => res matches Err(f) && f == e,
        },
{
    let body = match payload.encode() {
        Ok(b) => b,
        Err(e) => return Err(PushError::Encode(e)),
    };
    if body.len() > max_bytes {
        return Err(PushError::TooLarge { size: body.len(), limit: max_bytes });
    }
    Ok(body)
}

/// The text shown when a payload was not sent.
pub open spec fn push_error_message(p: PayloadView, e: PushError) -> Seq<char> {
    match e {
        PushError::Encode(pe) => crate::clip::payload_error_message(pe),
        PushError::TooLarge { size, limit } => description(p) + " encodes to "@ + decimal(
            size as nat,
        ) + " bytes, over the "@ + decimal(limit as nat) + " limit"@,
    }
}

impl PushError {
    /// The text shown to the user for the payload `p`.
    pub fn message(&self, p: &Payload) -> (s: String)
        ensures
            s@ == push_error_message(p@, *self),
    {
        match self {
            PushError::Encode(e) => e.message(),
            PushError::TooLarge { size, limit } => {
                let mut s = p.describe();
                let a = decimal_string(*size as u64);
                let b = decimal_string(*limit as u64);
                s.append(" encodes to ");
                s.append(a.as_str());
                s.append(" bytes, over the ");
                s.append(b.as_str());
                s.append(" limit");
                s
            },
        }
    }
}

/// Whether a connection comes from a configured peer: `origin` (the
/// octets of its address) is one of the `allowed` addresses.
pub fn is_configured_peer(allowed: &Vec<Vec<u8>>, origin: &[u8]) -> (r: bool)
    ensures
        r == exists|i: int| 0 <= i < allowed@.len() && #[trigger] allowed@[i]@ == origin@,
{
    let mut i: usize = 0;
    while i < allowed.len()
        invariant
            i <= allowed@.len(),
            forall|j: int| 0 <= j < i ==> #[trigger] allowed@[j]@ != origin@,
        decreases allowed@.len() - i,
    {
        if bytes_equal(allowed[i].as_slice(), origin) {
            return true;
        }
        i = i + 1;
    }
    false
}

/// Remembers the outcome of a send and tells whether to report it: a
/// failure is reported when its reason differs from the last failure, and
/// a success clears the last failure.
pub fn note_push_outcome(last_failure: &mut Option<String>, failure: Option<String>) -> (report: bool)
    ensures
        failure is None ==> !report && *final(last_failure) == None::<String>,
        failure matches Some(reason) ==> {
            &&& report == !(*old(last_failure) matches Some(l) && l@ == reason@)
            &&& *final(last_failure) matches Some(l) && l@ == reason@
        },
{
    match failure {
        None => {
            *last_failure = None;
            false
        },
        Some(reason) => {
            let same = match last_failure {
                Some(l) => *l == reason,
                None => false,
            };
            if !same {
                *last_failure = Some(reason);
            }
            !same
        },
    }
}

} // verus!
