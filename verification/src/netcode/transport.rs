//! The datagram transport seam: connection ids, transport errors, loss
//! models and the size rule every transport applies before sending.

use std::fmt::Write;
use vstd::prelude::*;
use crate::netcode::framing::{FramingError, MAX_PAYLOAD};
use crate::text::{decimal, push_decimal, push_str};

verus! {

/// Largest datagram a transport carries: one maximal frame.
pub const MAX_DGRAM: usize = 65545;

/// Identifies one logical connection (client↔shard).
#[derive(Debug, Clone, Copy, PartialEq, Eq, PartialOrd, Ord, Hash, Structural)]
pub struct ConnId(pub u64);

/// `ConnId(<n>)`, the display form of a connection id.
pub open spec fn conn_id_text(raw: u64) -> Seq<char> {
    "ConnId("@ + decimal(raw as nat) + ")"@
}

impl ConnId {
    /// Wrap a raw connection id.
    pub fn new(raw: u64) -> (c: Self)
        ensures
            c.0 == raw,
    {
        Self(raw)
    }

    /// The underlying raw value.
    pub fn raw(self) -> (r: u64)
        ensures
            r == self.0,
    {
        self.0
    }

    /// The display form, `ConnId(<raw>)`.
    pub fn to_string(&self) -> (s: String)
        ensures
            s@ == conn_id_text(self.0),
    {
        let mut s = String::new();
        push_conn_id(&mut s, *self);
        s
    }
}

fn push_conn_id(s: &mut String, c: ConnId)
    ensures
        final(s)@ == old(s)@ + conn_id_text(c.0),
{
    push_str(s, "ConnId(");
    push_decimal(s, c.0);
    push_str(s, ")");
    assert(final(s)@ =~= old(s)@ + conn_id_text(c.0));
}

#[verifier::external_type_specification]
#[verifier::external_body]
pub struct ExIoErrorKind(std::io::ErrorKind);

#[verifier::external_type_specification]
#[verifier::external_body]
pub struct ExIoError(std::io::Error);

/// The kind carried by an I/O error (`std::io::Error::kind`).
pub uninterp spec fn io_error_kind(e: std::io::Error) -> std::io::ErrorKind;

/// The display text of an I/O error kind (`<ErrorKind as Display>`).
pub uninterp spec fn io_kind_text(k: std::io::ErrorKind) -> Seq<char>;

/// `std::io::Error::kind`: the error's kind, and nothing else of it.
#[verifier::external_body]
fn error_kind_of(e: &std::io::Error) -> (k: std::io::ErrorKind)
    ensures
        k == io_error_kind(*e),
{
    e.kind()
}

/// `<std::io::ErrorKind as Display>::fmt`: the kind's fixed description
/// (for example "connection reset"), which depends on the kind alone.
#[verifier::external_body]
fn push_io_kind(s: &mut String, k: std::io::ErrorKind)
    ensures
        final(s)@ == old(s)@ + io_kind_text(k),
{
    let _ = write!(s, "{}", k);
}

/// A transport-level failure. Detail is kept generic and server-side safe: no
/// peer addresses, no payload bytes.
#[derive(Debug)]
pub enum TransportError {
    /// The connection is closed; no further datagrams can flow either way.
    Closed(ConnId),
    /// A datagram exceeded the transport's maximum on-wire size.
    TooLarge {
        /// The rejected datagram's size in bytes.
        size: usize,
        /// The transport's maximum datagram size in bytes.
        max: usize,
    },
    /// A received buffer could not be parsed into a frame.
    Framing(FramingError),
    /// The underlying socket failed. Only the generic error kind is retained.
    Io(std::io::ErrorKind),
}

/// The display text of a framing error.
pub open spec fn framing_error_text(e: FramingError) -> Seq<char> {
    match e {
        FramingError::Truncated { need, got } => "truncated frame: need "@ + decimal(need as nat)
            + " bytes, got "@ + decimal(got as nat),
        FramingError::PayloadTooLarge(n) => "payload too large: "@ + decimal(n as nat)
            + " bytes (max "@ + decimal(MAX_PAYLOAD as nat) + ")"@,
    }
}

/// The display text of a transport error.
pub open spec fn transport_error_text(e: TransportError) -> Seq<char> {
    match e {
        TransportError::Closed(c) => "connection "@ + conn_id_text(c.0) + " closed"@,
        TransportError::TooLarge { size, max } => "datagram too large: "@ + decimal(size as nat)
            + " bytes (max "@ + decimal(max as nat) + ")"@,
        TransportError::Framing(f) => "framing: "@ + framing_error_text(f),
        TransportError::Io(k) => "transport i/o: "@ + io_kind_text(k),
    }
}

fn push_framing_error(s: &mut String, e: FramingError)
    ensures
        final(s)@ == old(s)@ + framing_error_text(e),
{
    match e {
        FramingError::Truncated { need, got } => {
            push_str(s, "truncated frame: need ");
            push_decimal(s, need as u64);
            push_str(s, " bytes, got ");
            push_decimal(s, got as u64);
        },
        FramingError::PayloadTooLarge(n) => {
            push_str(s, "payload too large: ");
            push_decimal(s, n as u64);
            push_str(s, " bytes (max ");
            push_decimal(s, MAX_PAYLOAD as u64);
            push_str(s, ")");
        },
    }
    assert(final(s)@ =~= old(s)@ + framing_error_text(e));
}

impl FramingError {
    /// The human-readable description of this error.
    pub fn to_string(&self) -> (s: String)
        ensures
            s@ == framing_error_text(*self),
    {
        let mut s = String::new();
        push_framing_error(&mut s, *self);
        s
    }
}

impl TransportError {
    /// The human-readable description of this error. It never carries peer
    /// addresses or OS detail strings: only the connection id, sizes, the
    /// framing fault or the I/O error kind.
    pub fn to_string(&self) -> (s: String)
        ensures
            s@ == transport_error_text(*self),
    {
        let mut s = String::new();
        match self {
            TransportError::Closed(c) => {
                push_str(&mut s, "connection ");
                push_conn_id(&mut s, *c);
                push_str(&mut s, " closed");
            },
            TransportError::TooLarge { size, max } => {
                push_str(&mut s, "datagram too large: ");
                push_decimal(&mut s, *size as u64);
                push_str(&mut s, " bytes (max ");
                push_decimal(&mut s, *max as u64);
                push_str(&mut s, ")");
            },
            TransportError::Framing(f) => {
                push_str(&mut s, "framing: ");
                push_framing_error(&mut s, *f);
            },
            TransportError::Io(k) => {
                push_str(&mut s, "transport i/o: ");
                push_io_kind(&mut s, *k);
            },
        }
        assert(s@ =~= transport_error_text(*self));
        s
    }
}

impl From<FramingError> for TransportError {
    fn from(err: FramingError) -> (r: Self) {
        TransportError::Framing(err)
    }
}

impl vstd::std_specs::convert::FromSpecImpl<FramingError> for TransportError {
    open spec fn obeys_from_spec() -> bool {
        true
    }

    open spec fn from_spec(err: FramingError) -> TransportError {
        TransportError::Framing(err)
    }
}

impl From<std::io::Error> for TransportError {
    fn from(err: std::io::Error) -> (r: Self) {
        TransportError::Io(error_kind_of(&err))
    }
}

impl vstd::std_specs::convert::FromSpecImpl<std::io::Error> for TransportError {
    open spec fn obeys_from_spec() -> bool {
        true
    }

    open spec fn from_spec(err: std::io::Error) -> TransportError {
        TransportError::Io(io_error_kind(err))
    }
}

/// The size rule every transport applies before sending a datagram of `len`
/// bytes: anything larger than [`MAX_DGRAM`] is refused.
pub fn check_datagram_len(len: usize) -> (r: Result<(), TransportError>)
    ensures
        len > MAX_DGRAM <==> (r matches Err(TransportError::TooLarge { size, max }) && size == len
            && max == MAX_DGRAM),
        len <= MAX_DGRAM <==> r is Ok,
{
    if len > MAX_DGRAM {
        Err(TransportError::TooLarge { size: len, max: MAX_DGRAM })
    } else {
        Ok(())
    }
}

/// A drop decision over datagram send ordinals.
pub trait DropRule: Send + Sync {
    /// Whether this rule may answer `dropped` for `ordinal`.
    spec fn answers(&self, ordinal: u64, dropped: bool) -> bool;

    /// Whether the datagram with this 0-based send ordinal is dropped.
    fn drops(&self, ordinal: u64) -> (r: bool)
        ensures
            self.answers(ordinal, r),
    ;
}

struct NoLoss;

impl DropRule for NoLoss {
    closed spec fn answers(&self, ordinal: u64, dropped: bool) -> bool {
        !dropped
    }

    fn drops(&self, ordinal: u64) -> (r: bool) {
        false
    }
}

struct FnRule<F: Fn(u64) -> bool + Send + Sync> {
    f: F,
}

impl<F: Fn(u64) -> bool + Send + Sync> FnRule<F> {
    #[verifier::type_invariant]
    spec fn callable_everywhere(self) -> bool {
        forall|n: u64| call_requires(self.f, (n,))
    }
}

impl<F: Fn(u64) -> bool + Send + Sync> DropRule for FnRule<F> {
    closed spec fn answers(&self, ordinal: u64, dropped: bool) -> bool {
        call_ensures(self.f, (ordinal,), dropped)
    }

    fn drops(&self, ordinal: u64) -> (r: bool) {
        proof {
            use_type_invariant(self);
        }
        (self.f)(ordinal)
    }
}

/// Deterministic, injectable packet loss for one direction of a link. The
/// rule is called with each datagram's send ordinal; `true` drops it.
pub struct LossModel {
    rule: Box<dyn DropRule>,
    lossless: bool,
}

impl LossModel {
    /// A perfect link: nothing is ever dropped.
    pub fn lossless() -> (m: Self)
        ensures
            m.is_lossless(),
    {
        Self { rule: Box::new(NoLoss), lossless: true }
    }

    /// A link whose loss is decided by `drop_seq_fn(ordinal)`.
    pub fn new(drop_seq_fn: impl Fn(u64) -> bool + Send + Sync + 'static) -> (m: Self)
        requires
            forall|n: u64| call_requires(drop_seq_fn, (n,)),
        ensures
            !m.is_lossless(),
            forall|n: u64, d: bool| m.rule_answers(n, d) <==> call_ensures(drop_seq_fn, (n,), d),
    {
        Self { rule: Box::new(FnRule { f: drop_seq_fn }), lossless: false }
    }

    /// This model was built lossless.
    pub closed spec fn is_lossless(&self) -> bool {
        self.lossless
    }

    /// What the model's rule may answer for an ordinal.
    pub closed spec fn rule_answers(&self, ordinal: u64, dropped: bool) -> bool {
        self.rule.answers(ordinal, dropped)
    }

    /// Whether the datagram with this send ordinal is dropped. A lossless
    /// model never drops; otherwise the caller-supplied rule decides: the
    /// answer is one the rule gives for this ordinal.
    pub fn drops(&self, ordinal: u64) -> (r: bool)
        ensures
            self.is_lossless() ==> !r,
            !self.is_lossless() ==> self.rule_answers(ordinal, r),
    {
        if self.lossless {
            false
        } else {
            self.rule.drops(ordinal)
        }
    }
}

} // verus!
