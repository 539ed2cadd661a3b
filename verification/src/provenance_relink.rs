//! Assertions that connect the provenance of a change to its replacement.

use crate::error;
use crate::error::{ChangeName, Refusal, RepositoryError};
use crate::repository::Repository;
use crate::text;
use crate::types::ContentHash;
use vstd::prelude::*;

verus! {

/// A signed assertion that what explains one change also explains its
/// replacement.
#[derive(Debug)]
pub struct ProvenanceRelink {
    pub old_change: ContentHash,
    pub old_provenance: ContentHash,
    pub replacement_change: ContentHash,
    pub signer: Vec<u8>,
    pub signed_at: i64,
    pub signature: Vec<u8>,
}

/// What the holder of a public key says of a signature.
#[derive(Debug)]
pub enum SignatureVerdict {
    /// The signer is no public key.
    InvalidSigner(String),
    /// The signature is not the signer's.
    Rejected(String),
    Accepted,
}

/// Why a signature does not hold, in words: signer and signature must have the
/// widths of their kind before anyone is asked.
pub open spec fn signature_fault(signer: nat, signature: nat, verdict: SignatureVerdict) -> Option<
    Seq<char>,
> {
    if signer != 32 {
        Some("provenance relink signer must be 32 bytes, got "@ + text::numeral(signer))
    } else if signature != 64 {
        Some("provenance relink signature must be 64 bytes"@)
    } else {
        match verdict {
            SignatureVerdict::InvalidSigner(cause) => Some(
                "invalid provenance relink signer: "@ + cause@,
            ),
            SignatureVerdict::Rejected(cause) => Some(
                "invalid provenance relink signature: "@ + cause@,
            ),
            SignatureVerdict::Accepted => None,
        }
    }
}

/// Whether signer and signature have the widths of their kind, so that the
/// signature can be verified at all.
pub fn is_well_sized(relink: &ProvenanceRelink) -> (answer: bool)
    ensures
        answer == (relink.signer@.len() == 32 && relink.signature@.len() == 64),
{
    relink.signer.len() == 32 && relink.signature.len() == 64
}

/// Checks the signature that a relink carries; `verdict` is that of the
/// signer's public key on it.
pub fn verify_provenance_relink_signature(relink: &ProvenanceRelink, verdict: &SignatureVerdict) -> (checked:
    Result<(), RepositoryError>)
    ensures
        match signature_fault(relink.signer@.len(), relink.signature@.len(), *verdict) {
            None => checked is Ok,
            Some(message) => checked matches Err(error) && error.says(message),
        },
{
    if relink.signer.len() != 32 {
        let mut message: String = "provenance relink signer must be 32 bytes, got ".to_owned();
        message.append(text::decimal(relink.signer.len() as u64).as_str());
        return Err(error::invalid(message.as_str()));
    }
    if relink.signature.len() != 64 {
        return Err(error::invalid("provenance relink signature must be 64 bytes"));
    }
    match verdict {
        SignatureVerdict::InvalidSigner(cause) => {
            let mut message: String = "invalid provenance relink signer: ".to_owned();
            message.append(cause.as_str());
            Err(error::invalid(message.as_str()))
        },
        SignatureVerdict::Rejected(cause) => {
            let mut message: String = "invalid provenance relink signature: ".to_owned();
            message.append(cause.as_str());
            Err(error::invalid(message.as_str()))
        },
        SignatureVerdict::Accepted => Ok(()),
    }
}

/// Sixty-four zero bytes.
fn empty_signature() -> (bytes: Vec<u8>)
    ensures
        bytes@ == Seq::new(64, |i: int| 0u8),
{
    let mut bytes: Vec<u8> = Vec::new();
    while bytes.len() < 64
        invariant
            bytes.len() <= 64,
            bytes@ =~= Seq::new(bytes@.len(), |i: int| 0u8),
        decreases 64 - bytes.len(),
    {
        bytes.push(0);
    }
    bytes
}

impl Repository {
    /// The relink to sign: the old provenance must explain the old change, and
    /// both changes must be stored. `explained` is whether it does.
    pub fn create_provenance_relink(
        &self,
        old_change: ContentHash,
        old_provenance: ContentHash,
        replacement_change: ContentHash,
        explained: bool,
        signer: Vec<u8>,
        signed_at: i64,
    ) -> (prepared: Result<ProvenanceRelink, RepositoryError>)
        ensures
            if !explained {
                prepared == Err::<ProvenanceRelink, RepositoryError>(
                    RepositoryError::InvalidOperation {
                        refusal: Refusal::Unexplained {
                            provenance: old_provenance,
                            change: old_change,
                        },
                    },
                )
            } else if self.change_at(old_change) is None {
                prepared == Err::<ProvenanceRelink, RepositoryError>(
                    RepositoryError::ChangeNotFound { hash: ChangeName::Hash(old_change) },
                )
            } else if self.change_at(replacement_change) is None {
                prepared == Err::<ProvenanceRelink, RepositoryError>(
                    RepositoryError::ChangeNotFound { hash: ChangeName::Hash(replacement_change) },
                )
            } else {
                prepared matches Ok(relink) && relink.old_change == old_change
                    && relink.old_provenance == old_provenance && relink.replacement_change
                    == replacement_change && relink.signer@ == signer@ && relink.signed_at
                    == signed_at && relink.signature@ == Seq::new(64, |i: int| 0u8)
            },
    {
        if !explained {
            return Err(
                RepositoryError::InvalidOperation {
                    refusal: Refusal::Unexplained { provenance: old_provenance, change: old_change },
                },
            );
        }
        if self.find_change(old_change).is_none() {
            return Err(RepositoryError::ChangeNotFound { hash: ChangeName::Hash(old_change) });
        }
        if self.find_change(replacement_change).is_none() {
            return Err(RepositoryError::ChangeNotFound { hash: ChangeName::Hash(replacement_change) });
        }
        Ok(
            ProvenanceRelink {
                old_change,
                old_provenance,
                replacement_change,
                signer,
                signed_at,
                signature: empty_signature(),
            },
        )
    }
}

/// A relink with its signature, which the signer made over the unsigned one;
/// it is checked like any other before it is handed out.
pub fn sign_provenance_relink(
    unsigned: ProvenanceRelink,
    signature: Vec<u8>,
    verdict: &SignatureVerdict,
) -> (signed: Result<ProvenanceRelink, RepositoryError>)
    ensures
        match signature_fault(unsigned.signer@.len(), signature@.len(), *verdict) {
            None => signed == Ok::<ProvenanceRelink, RepositoryError>(
                ProvenanceRelink { signature, ..unsigned },
            ),
            Some(message) => signed matches Err(error) && error.says(message),
        },
{
    let relink = ProvenanceRelink {
        old_change: unsigned.old_change,
        old_provenance: unsigned.old_provenance,
        replacement_change: unsigned.replacement_change,
        signer: unsigned.signer,
        signed_at: unsigned.signed_at,
        signature,
    };
    match verify_provenance_relink_signature(&relink, verdict) {
        Ok(()) => Ok(relink),
        Err(error) => Err(error),
    }
}

} // verus!
