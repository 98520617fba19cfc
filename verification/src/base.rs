//! Shared base types: identities, digests, sequence numbers and errors.

use vstd::prelude::*;

verus! {

/// Identity of one authority (a public-key fingerprint, totally ordered).
pub type AuthorityName = u64;

/// Identifier of one object in the ledger.
pub type ObjectId = u64;

/// Address of an account that can own objects and sign transactions.
pub type SuiAddress = u64;

/// Digest of a transaction.
pub type TransactionDigest = u64;

/// Digest of one object's full state.
pub type ObjectDigest = u64;

/// Monotonically increasing per-object version.
pub type SequenceNumber = u64;

/// Epoch counter of a committee.
pub type EpochId = u64;

/// Reference to one object at one version: (id, version, digest).
pub type ObjectRef = (ObjectId, SequenceNumber, ObjectDigest);

/// Version given to an object by the first transaction that creates it.
pub const OBJECT_START_VERSION: u64 = 1;

/// Sentinel digest recorded for an object that a transaction deleted.
pub const OBJECT_DIGEST_DELETED: u64 = 0xFFFF_FFFF_FFFF_FFFFu64;

/// Digest of the synthetic genesis transaction.
pub const GENESIS_DIGEST: u64 = 0;

/// Errors surfaced by the library.
#[derive(Clone, Copy, Debug, PartialEq, Eq, Structural)]
pub enum SuiError {
    /// A signature does not verify against the signed data.
    InvalidSignature,
    /// The claimed sender does not own an input object.
    IncorrectSigner,
    /// A signer is not a member of the committee.
    UnknownSigner,
    /// The same authority signed twice.
    DuplicateSigner,
    /// A certificate was built without reaching the quorum threshold.
    CertificateRequiresQuorum,
    /// The committee could not be constructed from the given weights.
    InvalidCommittee,
    /// An attempt to transfer an object that is not address-owned.
    TransferUnownedError,
    /// The gas payment object cannot cover the transaction's budget.
    InsufficientGas,
    /// A referenced object is not present in the store.
    ObjectNotFound,
    /// An input object reference does not match the stored object state.
    LockErrors,
    /// Two different transactions want a lock on the same object version.
    ConflictingTransaction,
    /// A published module names a dependency that no stored package holds.
    DependentPackageNotFound,
    /// Incompatible authority answers made a quorum unreachable.
    TooManyIncorrectAuthorities,
    /// The global timeout elapsed before enough weight agreed.
    QuorumNotReached,
    /// A checkpoint diff does not connect to the reconciled set.
    WaypointError,
    /// A checkpoint sequence number was reused or skipped.
    CheckpointError,
}

/// One mixing step of the structural fingerprints used as digests:
/// xor, then add and multiply by odd constants, all modulo 2^64.
pub open spec fn mix(h: u64, v: u64) -> u64 {
    vstd::wrapping::u64_specs::wrapping_mul(
        vstd::wrapping::u64_specs::wrapping_add(h ^ v, 0x9E37_79B9_7F4A_7C15u64),
        0x100_0000_01B3u64,
    )
}

/// Executable counterpart of `mix`.
pub fn mix_exec(h: u64, v: u64) -> (r: u64)
    ensures
        r == mix(h, v),
{
    (h ^ v).wrapping_add(0x9E37_79B9_7F4A_7C15u64).wrapping_mul(0x100_0000_01B3u64)
}

/// Fingerprint of a byte sequence, folded left with `mix`.
pub open spec fn mix_bytes(h: u64, s: Seq<u8>) -> u64
    decreases s.len(),
{
    if s.len() == 0 {
        h
    } else {
        mix(mix_bytes(h, s.drop_last()), s.last() as u64)
    }
}

/// Executable counterpart of `mix_bytes`.
pub fn mix_bytes_exec(h: u64, s: &Vec<u8>) -> (r: u64)
    ensures
        r == mix_bytes(h, s@),
{
    let mut acc: u64 = h;
    let mut i: usize = 0;
    while i < s.len()
        invariant
            i <= s.len(),
            acc == mix_bytes(h, s@.take(i as int)),
        decreases s.len() - i,
    {
        proof {
            assert(s@.take(i + 1).drop_last() =~= s@.take(i as int));
            assert(s@.take(i + 1).last() == s@[i as int]);
        }
        acc = mix_exec(acc, s[i] as u64);
        i = i + 1;
    }
    proof {
        assert(s@.take(s@.len() as int) =~= s@);
    }
    acc
}

/// Fingerprint of a sequence of 64-bit words, folded left with `mix`.
pub open spec fn mix_words(h: u64, s: Seq<u64>) -> u64
    decreases s.len(),
{
    if s.len() == 0 {
        h
    } else {
        mix(mix_words(h, s.drop_last()), s.last())
    }
}

/// Executable counterpart of `mix_words`.
pub fn mix_words_exec(h: u64, s: &Vec<u64>) -> (r: u64)
    ensures
        r == mix_words(h, s@),
{
    let mut acc: u64 = h;
    let mut i: usize = 0;
    while i < s.len()
        invariant
            i <= s.len(),
            acc == mix_words(h, s@.take(i as int)),
        decreases s.len() - i,
    {
        proof {
            assert(s@.take(i + 1).drop_last() =~= s@.take(i as int));
            assert(s@.take(i + 1).last() == s@[i as int]);
        }
        acc = mix_exec(acc, s[i]);
        i = i + 1;
    }
    proof {
        assert(s@.take(s@.len() as int) =~= s@);
    }
    acc
}

/// Addition on `u64` saturating at the maximum.
pub open spec fn sat_add(a: u64, b: u64) -> u64 {
    if a + b > u64::MAX {
        u64::MAX
    } else {
        (a + b) as u64
    }
}

/// Executable counterpart of `sat_add`.
pub fn sat_add_exec(a: u64, b: u64) -> (r: u64)
    ensures
        r == sat_add(a, b),
{
    if a > u64::MAX - b {
        u64::MAX
    } else {
        a + b
    }
}

/// Balance after deducting gas and applying a rebate, clamped to `u64`.
pub open spec fn deduct_balance(balance: u64, used: u64, rebate: u64) -> u64 {
    let v = balance - used + rebate;
    if v < 0 {
        0
    } else if v > u64::MAX {
        u64::MAX
    } else {
        v as u64
    }
}

/// Executable counterpart of `deduct_balance`.
pub fn deduct_balance_exec(balance: u64, used: u64, rebate: u64) -> (r: u64)
    ensures
        r == deduct_balance(balance, used, rebate),
{
    if used >= rebate {
        let net = used - rebate;
        if balance >= net {
            balance - net
        } else {
            0
        }
    } else {
        let net = rebate - used;
        if balance > u64::MAX - net {
            u64::MAX
        } else {
            balance + net
        }
    }
}

} // verus!
