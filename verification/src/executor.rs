//! A small in-process executor for the built-in basics module: create,
//! transfer, set a value, a no-op update, and delete. It stands in for
//! the opaque virtual machine wherever no networked executor is wired
//! in; the engine's guarantees never depend on what it does.

use crate::execution_engine::{MoveExecutor, StoreOp, TxContext};
use crate::messages::{MoveCall, MoveModulePublish};
use crate::objects::{Data, Object, Owner};
use crate::temporary_store::AuthorityTemporaryStore;
use vstd::prelude::*;

verus! {

/// Module identifier of the built-in basics module.
pub const OBJECT_BASICS_MODULE: u64 = 101;

/// Module identifier of the identity module of the genesis package.
pub const ID_MODULE: u64 = 100;

pub const FN_CREATE: u64 = 1;

pub const FN_TRANSFER: u64 = 2;

pub const FN_SET_VALUE: u64 = 3;

pub const FN_DELETE: u64 = 4;

pub const FN_UPDATE: u64 = 5;

/// Gas units metered for one basics call.
pub const CALL_GAS_UNITS: u64 = 10;

/// Little-endian 64-bit value of an 8-byte string.
pub open spec fn le8(s: Seq<u8>) -> u64 {
    (s[0] as u64) | ((s[1] as u64) << 8) | ((s[2] as u64) << 16) | ((s[3] as u64) << 24) | ((
    s[4] as u64) << 32) | ((s[5] as u64) << 40) | ((s[6] as u64) << 48) | ((s[7] as u64) << 56)
}

/// Decode a little-endian 64-bit value; exactly 8 bytes are accepted.
pub fn u64_from_le_bytes(b: &Vec<u8>) -> (r: Option<u64>)
    ensures
        b@.len() == 8 ==> r == Some(le8(b@)),
        b@.len() != 8 ==> r is None,
{
    if b.len() != 8 {
        return None;
    }
    Some(
        (b[0] as u64) | ((b[1] as u64) << 8u64) | ((b[2] as u64) << 16u64) | ((b[3] as u64)
            << 24u64) | ((b[4] as u64) << 32u64) | ((b[5] as u64) << 40u64) | ((b[6] as u64)
            << 48u64) | ((b[7] as u64) << 56u64),
    )
}

/// The in-process executor.
pub struct BasicsExecutor {}

impl MoveExecutor for BasicsExecutor {
    fn execute(
        &self,
        store: &AuthorityTemporaryStore,
        call: &MoveCall,
        ctx: &mut TxContext,
    ) -> Result<(Vec<StoreOp>, u64), u64> {
        proof {
            assert(store.wf());
        }
        if call.module != OBJECT_BASICS_MODULE {
            return Err(CALL_GAS_UNITS);
        }
        if call.function == FN_CREATE {
            if call.pure_arguments.len() < 2 {
                return Err(CALL_GAS_UNITS);
            }
            let owner = match u64_from_le_bytes(&call.pure_arguments[1]) {
                Some(a) => a,
                None => {
                    return Err(CALL_GAS_UNITS);
                },
            };
            let contents = crate::messages::copy_vec(&call.pure_arguments[0]);
            let id = ctx.fresh_id();
            let obj = Object {
                id,
                version: 0,
                owner: Owner::AddressOwner(owner),
                data: Data::MoveObj { contents },
            };
            let mut ops: Vec<StoreOp> = Vec::new();
            ops.push(StoreOp::Write(obj));
            return Ok((ops, CALL_GAS_UNITS));
        }
        if call.function == FN_TRANSFER {
            if call.object_arguments.len() < 1 || call.pure_arguments.len() < 1 {
                return Err(CALL_GAS_UNITS);
            }
            let recipient = match u64_from_le_bytes(&call.pure_arguments[0]) {
                Some(a) => a,
                None => {
                    return Err(CALL_GAS_UNITS);
                },
            };
            let id = call.object_arguments[0].0;
            let mut obj = match store.read_object(id) {
                Some(o) => o.clone_object(),
                None => {
                    return Err(CALL_GAS_UNITS);
                },
            };
            obj.owner = Owner::AddressOwner(recipient);
            let mut ops: Vec<StoreOp> = Vec::new();
            ops.push(StoreOp::Write(obj));
            return Ok((ops, CALL_GAS_UNITS));
        }
        if call.function == FN_SET_VALUE {
            if call.object_arguments.len() < 1 || call.pure_arguments.len() < 1 {
                return Err(CALL_GAS_UNITS);
            }
            let id = call.object_arguments[0].0;
            let mut obj = match store.read_object(id) {
                Some(o) => o.clone_object(),
                None => {
                    return Err(CALL_GAS_UNITS);
                },
            };
            obj.data = Data::MoveObj { contents: crate::messages::copy_vec(&call.pure_arguments[0]) };
            let mut ops: Vec<StoreOp> = Vec::new();
            ops.push(StoreOp::Write(obj));
            return Ok((ops, CALL_GAS_UNITS));
        }
        if call.function == FN_DELETE {
            if call.object_arguments.len() < 1 {
                return Err(CALL_GAS_UNITS);
            }
            let mut ops: Vec<StoreOp> = Vec::new();
            ops.push(StoreOp::Delete(call.object_arguments[0].0));
            return Ok((ops, CALL_GAS_UNITS));
        }
        if call.function == FN_UPDATE {
            // The update leaves its arguments untouched by content; the
            // engine still marks every input mutated.
            let ops: Vec<StoreOp> = Vec::new();
            return Ok((ops, CALL_GAS_UNITS));
        }
        Err(CALL_GAS_UNITS)
    }

    fn publish(
        &self,
        _store: &AuthorityTemporaryStore,
        publish: &MoveModulePublish,
        ctx: &mut TxContext,
    ) -> Result<(Vec<StoreOp>, u64), u64> {
        let mut names: Vec<u64> = Vec::new();
        let n = publish.modules.len();
        let mut i: usize = 0;
        while i < n
            invariant
                n == publish.modules@.len(),
                i <= n,
            decreases n - i,
        {
            names.push(publish.modules[i].name);
            i = i + 1;
        }
        let id = ctx.fresh_id();
        let obj = Object { id, version: 0, owner: Owner::Immutable, data: Data::Package { modules: names } };
        let mut ops: Vec<StoreOp> = Vec::new();
        ops.push(StoreOp::Write(obj));
        Ok((ops, CALL_GAS_UNITS))
    }
}

} // verus!
