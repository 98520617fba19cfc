//! Objects of the ledger: identity, version, owner and data, and the
//! structural fingerprint that serves as an object's content digest.

use crate::base::{
    mix, mix_bytes, mix_bytes_exec, mix_exec, ObjectDigest, ObjectId, ObjectRef, SequenceNumber,
    SuiAddress,
};
use vstd::prelude::*;

verus! {

/// Default balance of a gas object made for tests.
pub const GAS_VALUE_FOR_TESTING: u64 = 100000;

/// Who controls an object.
#[derive(Clone, Copy, Debug, PartialEq, Eq, Structural)]
pub enum Owner {
    /// Owned by a single address; only that address may use or mutate it.
    AddressOwner(SuiAddress),
    /// Usable by everyone through consensus.
    Shared,
    /// Frozen; never mutated again.
    Immutable,
}

impl Owner {
    /// Two words encoding the owner, for fingerprints.
    pub open spec fn words(self) -> (u64, u64) {
        match self {
            Owner::AddressOwner(a) => (1, a),
            Owner::Shared => (2, 0),
            Owner::Immutable => (3, 0),
        }
    }
}

/// Ghost image of `Data`.
#[verifier::ext_equal]
pub enum DataV {
    Coin { balance: u64 },
    MoveObj { contents: Seq<u8> },
    Package { modules: Seq<u64> },
}

/// Payload of an object.
pub enum Data {
    /// A gas coin carrying a balance.
    Coin { balance: u64 },
    /// An opaque user object: raw contents bytes.
    MoveObj { contents: Vec<u8> },
    /// A package of published modules, named by identifier.
    Package { modules: Vec<u64> },
}

impl View for Data {
    type V = DataV;

    open spec fn view(&self) -> DataV {
        match self {
            Data::Coin { balance } => DataV::Coin { balance: *balance },
            Data::MoveObj { contents } => DataV::MoveObj { contents: contents@ },
            Data::Package { modules } => DataV::Package { modules: modules@ },
        }
    }
}

impl DataV {
    /// Storage footprint charged for keeping this data, in gas units,
    /// saturating at `u64::MAX`.
    pub open spec fn storage_size(self) -> u64 {
        match self {
            DataV::Coin { .. } => 8,
            DataV::MoveObj { contents } => if contents.len() > u64::MAX {
                u64::MAX
            } else {
                contents.len() as u64
            },
            DataV::Package { modules } => if 8 * modules.len() > u64::MAX {
                u64::MAX
            } else {
                (8 * modules.len()) as u64
            },
        }
    }
}

impl Data {
    pub fn clone_data(&self) -> (r: Data)
        ensures
            r@ == self@,
    {
        match self {
            Data::Coin { balance } => Data::Coin { balance: *balance },
            Data::MoveObj { contents } => {
                let mut c: Vec<u8> = Vec::new();
                let mut i: usize = 0;
                while i < contents.len()
                    invariant
                        i <= contents.len(),
                        c@ =~= contents@.take(i as int),
                    decreases contents.len() - i,
                {
                    c.push(contents[i]);
                    i = i + 1;
                }
                proof {
                    assert(c@ =~= contents@);
                }
                Data::MoveObj { contents: c }
            },
            Data::Package { modules } => {
                let mut c: Vec<u64> = Vec::new();
                let mut i: usize = 0;
                while i < modules.len()
                    invariant
                        i <= modules.len(),
                        c@ =~= modules@.take(i as int),
                    decreases modules.len() - i,
                {
                    c.push(modules[i]);
                    i = i + 1;
                }
                proof {
                    assert(c@ =~= modules@);
                }
                Data::Package { modules: c }
            },
        }
    }

    /// Storage footprint; mirrors `DataV::storage_size`.
    pub fn storage_size(&self) -> (r: u64)
        ensures
            r == self@.storage_size(),
    {
        match self {
            Data::Coin { .. } => 8,
            Data::MoveObj { contents } => contents.len() as u64,
            Data::Package { modules } => {
                let n = modules.len() as u64;
                if n > u64::MAX / 8 {
                    u64::MAX
                } else {
                    8 * n
                }
            },
        }
    }
}

/// Ghost image of `Object`.
#[verifier::ext_equal]
pub struct ObjectV {
    pub id: ObjectId,
    pub version: SequenceNumber,
    pub owner: Owner,
    pub data: DataV,
}

/// One object of the ledger's versioned store.
pub struct Object {
    pub id: ObjectId,
    pub version: SequenceNumber,
    pub owner: Owner,
    pub data: Data,
}

impl View for Object {
    type V = ObjectV;

    open spec fn view(&self) -> ObjectV {
        ObjectV { id: self.id, version: self.version, owner: self.owner, data: self.data@ }
    }
}

/// Content digest of an object: a structural fingerprint of its identity,
/// version, owner and data.
pub open spec fn object_digest(o: ObjectV) -> ObjectDigest {
    let h0 = mix(mix(0x0B1Eu64, o.id), o.version);
    let h1 = mix(mix(h0, o.owner.words().0), o.owner.words().1);
    match o.data {
        DataV::Coin { balance } => mix(mix(h1, 4), balance),
        DataV::MoveObj { contents } => mix_bytes(mix(h1, 5), contents),
        DataV::Package { modules } => crate::base::mix_words(mix(h1, 6), modules),
    }
}

/// Reference to an object at its current version.
pub open spec fn object_ref(o: ObjectV) -> ObjectRef {
    (o.id, o.version, object_digest(o))
}

impl Object {
    pub fn clone_object(&self) -> (r: Object)
        ensures
            r@ == self@,
    {
        Object {
            id: self.id,
            version: self.version,
            owner: self.owner,
            data: self.data.clone_data(),
        }
    }

    pub fn id(&self) -> (r: ObjectId)
        ensures
            r == self@.id,
    {
        self.id
    }

    pub fn version(&self) -> (r: SequenceNumber)
        ensures
            r == self@.version,
    {
        self.version
    }

    /// The object's content digest.
    pub fn digest(&self) -> (r: ObjectDigest)
        ensures
            r == object_digest(self@),
    {
        let h0 = mix_exec(mix_exec(0x0B1Eu64, self.id), self.version);
        let (w0, w1) = match self.owner {
            Owner::AddressOwner(a) => (1u64, a),
            Owner::Shared => (2u64, 0u64),
            Owner::Immutable => (3u64, 0u64),
        };
        let h1 = mix_exec(mix_exec(h0, w0), w1);
        match &self.data {
            Data::Coin { balance } => mix_exec(mix_exec(h1, 4), *balance),
            Data::MoveObj { contents } => mix_bytes_exec(mix_exec(h1, 5), contents),
            Data::Package { modules } => crate::base::mix_words_exec(mix_exec(h1, 6), modules),
        }
    }

    /// The (id, version, digest) reference of this object state.
    pub fn compute_object_reference(&self) -> (r: ObjectRef)
        ensures
            r == object_ref(self@),
    {
        (self.id, self.version, self.digest())
    }

    /// Whether the object is a published package.
    pub fn is_package(&self) -> (r: bool)
        ensures
            r == (self@.data is Package),
    {
        match &self.data {
            Data::Package { .. } => true,
            _ => false,
        }
    }

    /// An owned-for-testing gas object at version 0 with the default balance.
    pub fn with_id_owner_for_testing(id: ObjectId, owner: SuiAddress) -> (r: Object)
        ensures
            r@ == (ObjectV {
                id,
                version: 0,
                owner: Owner::AddressOwner(owner),
                data: DataV::Coin { balance: GAS_VALUE_FOR_TESTING },
            }),
    {
        Object {
            id,
            version: 0,
            owner: Owner::AddressOwner(owner),
            data: Data::Coin { balance: GAS_VALUE_FOR_TESTING },
        }
    }

    /// An owned-for-testing gas object with a chosen version and balance.
    pub fn with_id_owner_gas_for_testing(
        id: ObjectId,
        version: SequenceNumber,
        owner: SuiAddress,
        gas: u64,
    ) -> (r: Object)
        ensures
            r@ == (ObjectV {
                id,
                version,
                owner: Owner::AddressOwner(owner),
                data: DataV::Coin { balance: gas },
            }),
    {
        Object { id, version, owner: Owner::AddressOwner(owner), data: Data::Coin { balance: gas } }
    }

    /// An immutable coin object, e.g. an invalid gas payment.
    pub fn immutable_with_id_for_testing(id: ObjectId) -> (r: Object)
        ensures
            r@ == (ObjectV {
                id,
                version: 0,
                owner: Owner::Immutable,
                data: DataV::Coin { balance: GAS_VALUE_FOR_TESTING },
            }),
    {
        Object { id, version: 0, owner: Owner::Immutable, data: Data::Coin { balance: GAS_VALUE_FOR_TESTING } }
    }

    /// A package object holding the given module names, owned by nobody.
    pub fn package_for_testing(id: ObjectId, version: SequenceNumber, modules: Vec<u64>) -> (r:
        Object)
        ensures
            r@ == (ObjectV {
                id,
                version,
                owner: Owner::Immutable,
                data: DataV::Package { modules: modules@ },
            }),
    {
        Object { id, version, owner: Owner::Immutable, data: Data::Package { modules } }
    }
}

} // verus!
