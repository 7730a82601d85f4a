//! Stable identity of the host producer that owns a generated manifest.
use vstd::prelude::*;
use crate::text::{all_white_space, white_space};

verus! {

/// Stable identity of the host producer that owns a generated manifest.
#[derive(Clone, Debug, PartialEq, Eq)]
pub struct ProducerIdentity {
    kind: String,
    id: String,
}

/// Which producer identity component failed validation.
#[derive(Clone, Copy, Debug, PartialEq, Eq)]
pub enum ProducerIdentityPart {
    /// Producer kind.
    Kind,
    /// Producer identifier.
    Id,
}

/// Failure constructing a producer identity.
#[derive(Clone, Copy, Debug, PartialEq, Eq)]
pub enum ProducerIdentityError {
    /// A component was empty.
    Empty { part: ProducerIdentityPart },
    /// A component contained only whitespace.
    Whitespace { part: ProducerIdentityPart },
}

/// The validation outcome for one identity component.
pub open spec fn identity_part_outcome(part: ProducerIdentityPart, value: Seq<char>) -> Option<
    ProducerIdentityError,
> {
    if value.len() == 0 {
        Some(ProducerIdentityError::Empty { part })
    } else if all_white_space(value) {
        Some(ProducerIdentityError::Whitespace { part })
    } else {
        None
    }
}

/// Name of an identity component, as its `Display` text reads.
pub open spec fn identity_part_name(part: ProducerIdentityPart) -> Seq<char> {
    match part {
        ProducerIdentityPart::Kind => "producer kind"@,
        ProducerIdentityPart::Id => "producer id"@,
    }
}

/// Message text of an identity error.
pub open spec fn identity_error_message(e: ProducerIdentityError) -> Seq<char> {
    match e {
        ProducerIdentityError::Empty { part } => identity_part_name(part) + " must not be empty"@,
        ProducerIdentityError::Whitespace { part } => identity_part_name(part)
            + " must not contain only whitespace"@,
    }
}

impl ProducerIdentityPart {
    /// The component name.
    pub fn name(&self) -> (r: &'static str)
        ensures
            r@ == identity_part_name(*self),
    {
        match self {
            ProducerIdentityPart::Kind => "producer kind",
            ProducerIdentityPart::Id => "producer id",
        }
    }
}

impl ProducerIdentityError {
    /// The human-readable message.
    pub fn message(&self) -> (r: String)
        ensures
            r@ == identity_error_message(*self),
    {
        match self {
            ProducerIdentityError::Empty { part } => crate::text::concat2(
                part.name(),
                " must not be empty",
            ),
            ProducerIdentityError::Whitespace { part } => crate::text::concat2(
                part.name(),
                " must not contain only whitespace",
            ),
        }
    }
}

/// Validate one identity component: non-empty and not only whitespace.
fn validate_identity_part(part: ProducerIdentityPart, value: &str) -> (r: Result<
    (),
    ProducerIdentityError,
>)
    ensures
        match identity_part_outcome(part, value@) {
            Some(e) => r == Err::<(), ProducerIdentityError>(e),
            None => r is Ok,
        },
{
    let chars = crate::text::str_chars(value);
    if chars.len() == 0 {
        return Err(ProducerIdentityError::Empty { part });
    }
    let mut i: usize = 0;
    while i < chars.len()
        invariant
            chars@ == value@,
            i <= chars@.len(),
            forall|j: int| 0 <= j < i ==> crate::text::is_white_space(#[trigger] chars@[j]),
        decreases chars@.len() - i,
    {
        if !white_space(chars[i]) {
            return Ok(());
        }
        i = i + 1;
    }
    Err(ProducerIdentityError::Whitespace { part })
}

impl ProducerIdentity {
    /// The producer kind.
    pub closed spec fn kind_view(&self) -> Seq<char> {
        self.kind@
    }

    /// The producer identifier.
    pub closed spec fn id_view(&self) -> Seq<char> {
        self.id@
    }

    /// Creates a validated producer identity without imposing a character
    /// grammar beyond the non-empty/whitespace contract.
    pub fn new(kind: String, id: String) -> (r: Result<Self, ProducerIdentityError>)
        ensures
            match (identity_part_outcome(ProducerIdentityPart::Kind, kind@), identity_part_outcome(
                ProducerIdentityPart::Id,
                id@,
            )) {
                (Some(e), _) => r == Err::<ProducerIdentity, ProducerIdentityError>(e),
                (None, Some(e)) => r == Err::<ProducerIdentity, ProducerIdentityError>(e),
                (None, None) => r matches Ok(p) && p.kind_view() == kind@ && p.id_view() == id@,
            },
    {
        match validate_identity_part(ProducerIdentityPart::Kind, kind.as_str()) {
            Err(e) => {
                return Err(e);
            },
            Ok(()) => {},
        }
        match validate_identity_part(ProducerIdentityPart::Id, id.as_str()) {
            Err(e) => {
                return Err(e);
            },
            Ok(()) => {},
        }
        Ok(ProducerIdentity { kind, id })
    }

    /// Returns the producer kind.
    pub fn kind(&self) -> (r: &str)
        ensures
            r@ == self.kind_view(),
    {
        self.kind.as_str()
    }

    /// Returns the producer identifier.
    pub fn id(&self) -> (r: &str)
        ensures
            r@ == self.id_view(),
    {
        self.id.as_str()
    }
}

} // verus!
