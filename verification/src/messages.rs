//! Transactions, signatures, certificates and transaction effects.
//!
//! Signing is modelled structurally: a signature binds the signer's
//! identity to the digest of the signed data, and verification checks
//! exactly that binding. Digests are the structural fingerprints of
//! `crate::base`.

use crate::base::{
    mix, mix_exec, mix_words, mix_words_exec, AuthorityName, EpochId, ObjectRef, SuiAddress,
    SuiError, TransactionDigest,
};
use crate::committee::{quorum_threshold_spec, Committee};
use crate::objects::Owner;
use vstd::prelude::*;

verus! {

// ---------------------------------------------------------------------
// Transaction kinds
// ---------------------------------------------------------------------
/// Reassign ownership of one object to a recipient address.
#[derive(Clone, Copy, Debug, PartialEq, Eq)]
pub struct Transfer {
    pub recipient: SuiAddress,
    pub object_ref: ObjectRef,
}

/// Ghost image of `MoveCall`.
#[verifier::ext_equal]
pub struct MoveCallV {
    pub package: ObjectRef,
    pub module: u64,
    pub function: u64,
    pub type_arguments: Seq<u64>,
    pub object_arguments: Seq<ObjectRef>,
    pub shared_object_arguments: Seq<u64>,
    pub pure_arguments: Seq<Seq<u8>>,
}

/// Invoke a function of a published module through the opaque executor.
pub struct MoveCall {
    pub package: ObjectRef,
    pub module: u64,
    pub function: u64,
    pub type_arguments: Vec<u64>,
    pub object_arguments: Vec<ObjectRef>,
    pub shared_object_arguments: Vec<u64>,
    pub pure_arguments: Vec<Vec<u8>>,
}

impl View for MoveCall {
    type V = MoveCallV;

    open spec fn view(&self) -> MoveCallV {
        MoveCallV {
            package: self.package,
            module: self.module,
            function: self.function,
            type_arguments: self.type_arguments@,
            object_arguments: self.object_arguments@,
            shared_object_arguments: self.shared_object_arguments@,
            pure_arguments: self.pure_arguments.deep_view(),
        }
    }
}

impl DeepView for MoveCall {
    type V = MoveCallV;

    open spec fn deep_view(&self) -> MoveCallV {
        self.view()
    }
}

/// Ghost image of `ModuleDef`.
#[verifier::ext_equal]
pub struct ModuleDefV {
    pub name: u64,
    pub dependencies: Seq<u64>,
}

/// A module to publish: its name and the module names it depends on.
pub struct ModuleDef {
    pub name: u64,
    pub dependencies: Vec<u64>,
}

impl View for ModuleDef {
    type V = ModuleDefV;

    open spec fn view(&self) -> ModuleDefV {
        ModuleDefV { name: self.name, dependencies: self.dependencies@ }
    }
}

impl DeepView for ModuleDef {
    type V = ModuleDefV;

    open spec fn deep_view(&self) -> ModuleDefV {
        self.view()
    }
}

/// Publish a set of modules as a new package.
pub struct MoveModulePublish {
    pub modules: Vec<ModuleDef>,
}

/// Ghost image of `SingleTransactionKind`.
#[verifier::ext_equal]
pub enum SingleTransactionKindV {
    Transfer(Transfer),
    Call(MoveCallV),
    Publish(Seq<ModuleDefV>),
}

/// One sub-operation of a transaction.
pub enum SingleTransactionKind {
    Transfer(Transfer),
    Call(MoveCall),
    Publish(MoveModulePublish),
}

impl View for SingleTransactionKind {
    type V = SingleTransactionKindV;

    open spec fn view(&self) -> SingleTransactionKindV {
        match self {
            SingleTransactionKind::Transfer(t) => SingleTransactionKindV::Transfer(*t),
            SingleTransactionKind::Call(c) => SingleTransactionKindV::Call(c@),
            SingleTransactionKind::Publish(p) => SingleTransactionKindV::Publish(
                p.modules.deep_view(),
            ),
        }
    }
}

impl DeepView for SingleTransactionKind {
    type V = SingleTransactionKindV;

    open spec fn deep_view(&self) -> SingleTransactionKindV {
        self.view()
    }
}

/// Ghost image of `TransactionData`.
#[verifier::ext_equal]
pub struct TransactionDataV {
    pub kinds: Seq<SingleTransactionKindV>,
    pub sender: SuiAddress,
    pub gas_payment: ObjectRef,
    pub gas_budget: u64,
}

/// The signed payload of a transaction: its sub-operations in declaration
/// order, the sender, the gas payment object and the gas budget.
pub struct TransactionData {
    pub kinds: Vec<SingleTransactionKind>,
    pub sender: SuiAddress,
    pub gas_payment: ObjectRef,
    pub gas_budget: u64,
}

impl View for TransactionData {
    type V = TransactionDataV;

    open spec fn view(&self) -> TransactionDataV {
        TransactionDataV {
            kinds: self.kinds.deep_view(),
            sender: self.sender,
            gas_payment: self.gas_payment,
            gas_budget: self.gas_budget,
        }
    }
}

// ---------------------------------------------------------------------
// Digests of transaction data
// ---------------------------------------------------------------------
/// Mix an object reference into a fingerprint.
pub open spec fn mix_ref(h: u64, r: ObjectRef) -> u64 {
    mix(mix(mix(h, r.0), r.1), r.2)
}

pub fn mix_ref_exec(h: u64, r: ObjectRef) -> (out: u64)
    ensures
        out == mix_ref(h, r),
{
    mix_exec(mix_exec(mix_exec(h, r.0), r.1), r.2)
}

/// Fold a sequence of object references into a fingerprint.
pub open spec fn fold_refs(h: u64, s: Seq<ObjectRef>) -> u64
    decreases s.len(),
{
    if s.len() == 0 {
        h
    } else {
        mix_ref(fold_refs(h, s.drop_last()), s.last())
    }
}

pub fn fold_refs_exec(h: u64, s: &Vec<ObjectRef>) -> (out: u64)
    ensures
        out == fold_refs(h, s@),
{
    let mut acc: u64 = h;
    let mut i: usize = 0;
    while i < s.len()
        invariant
            i <= s.len(),
            acc == fold_refs(h, s@.take(i as int)),
        decreases s.len() - i,
    {
        proof {
            assert(s@.take(i + 1).drop_last() =~~= s@.take(i as int));
        }
        acc = mix_ref_exec(acc, s[i]);
        i = i + 1;
    }
    proof {
        assert(s@.take(s@.len() as int) =~~= s@);
    }
    acc
}

/// Fold a sequence of byte strings, mixing each string's length first.
pub open spec fn fold_byte_seqs(h: u64, s: Seq<Seq<u8>>) -> u64
    decreases s.len(),
{
    if s.len() == 0 {
        h
    } else {
        crate::base::mix_bytes(
            mix(fold_byte_seqs(h, s.drop_last()), s.last().len() as u64),
            s.last(),
        )
    }
}

pub fn fold_byte_seqs_exec(h: u64, s: &Vec<Vec<u8>>) -> (out: u64)
    ensures
        out == fold_byte_seqs(h, s.deep_view()),
{
    let mut acc: u64 = h;
    let mut i: usize = 0;
    while i < s.len()
        invariant
            i <= s.len(),
            acc == fold_byte_seqs(h, s.deep_view().take(i as int)),
        decreases s.len() - i,
    {
        proof {
            assert(s.deep_view().take(i + 1).drop_last() =~~= s.deep_view().take(i as int));
            assert(s.deep_view().take(i + 1).last() == s@[i as int]@);
        }
        let elem = &s[i];
        acc = crate::base::mix_bytes_exec(mix_exec(acc, elem.len() as u64), elem);
        i = i + 1;
    }
    proof {
        assert(s.deep_view().take(s.deep_view().len() as int) =~~= s.deep_view());
    }
    acc
}

/// Fingerprint of a call operation.
pub open spec fn digest_of_call(c: MoveCallV) -> u64 {
    let h0 = mix_ref(0xCA11u64, c.package);
    let h1 = mix(mix(h0, c.module), c.function);
    let h2 = mix_words(h1, c.type_arguments);
    let h3 = fold_refs(h2, c.object_arguments);
    let h4 = mix_words(h3, c.shared_object_arguments);
    fold_byte_seqs(h4, c.pure_arguments)
}

pub fn digest_of_call_exec(c: &MoveCall) -> (out: u64)
    ensures
        out == digest_of_call(c@),
{
    let h0 = mix_ref_exec(0xCA11u64, c.package);
    let h1 = mix_exec(mix_exec(h0, c.module), c.function);
    let h2 = mix_words_exec(h1, &c.type_arguments);
    let h3 = fold_refs_exec(h2, &c.object_arguments);
    let h4 = mix_words_exec(h3, &c.shared_object_arguments);
    fold_byte_seqs_exec(h4, &c.pure_arguments)
}

/// Fingerprint of one module definition, mixed into `h`.
pub open spec fn mix_module(h: u64, m: ModuleDefV) -> u64 {
    mix_words(mix(h, m.name), m.dependencies)
}

/// Fold a sequence of module definitions.
pub open spec fn fold_modules(h: u64, s: Seq<ModuleDefV>) -> u64
    decreases s.len(),
{
    if s.len() == 0 {
        h
    } else {
        mix_module(fold_modules(h, s.drop_last()), s.last())
    }
}

pub fn fold_modules_exec(h: u64, s: &Vec<ModuleDef>) -> (out: u64)
    ensures
        out == fold_modules(h, s.deep_view()),
{
    let mut acc: u64 = h;
    let mut i: usize = 0;
    while i < s.len()
        invariant
            i <= s.len(),
            acc == fold_modules(h, s.deep_view().take(i as int)),
        decreases s.len() - i,
    {
        proof {
            assert(s.deep_view().take(i + 1).drop_last() =~~= s.deep_view().take(i as int));
            assert(s.deep_view().take(i + 1).last() == s@[i as int]@);
        }
        let m = &s[i];
        acc = mix_words_exec(mix_exec(acc, m.name), &m.dependencies);
        i = i + 1;
    }
    proof {
        assert(s.deep_view().take(s.deep_view().len() as int) =~~= s.deep_view());
    }
    acc
}

/// Fingerprint of one sub-operation.
pub open spec fn digest_of_kind(k: SingleTransactionKindV) -> u64 {
    match k {
        SingleTransactionKindV::Transfer(t) => mix_ref(mix(0x7F17u64, t.recipient), t.object_ref),
        SingleTransactionKindV::Call(c) => mix(digest_of_call(c), 1),
        SingleTransactionKindV::Publish(mods) => mix(fold_modules(0xB0Bu64, mods), 2),
    }
}

pub fn digest_of_kind_exec(k: &SingleTransactionKind) -> (out: u64)
    ensures
        out == digest_of_kind(k@),
{
    match k {
        SingleTransactionKind::Transfer(t) => mix_ref_exec(
            mix_exec(0x7F17u64, t.recipient),
            t.object_ref,
        ),
        SingleTransactionKind::Call(c) => mix_exec(digest_of_call_exec(c), 1),
        SingleTransactionKind::Publish(p) => mix_exec(fold_modules_exec(0xB0Bu64, &p.modules), 2),
    }
}

/// Fold the sub-operations of a transaction.
pub open spec fn fold_kinds(h: u64, s: Seq<SingleTransactionKindV>) -> u64
    decreases s.len(),
{
    if s.len() == 0 {
        h
    } else {
        mix(fold_kinds(h, s.drop_last()), digest_of_kind(s.last()))
    }
}

pub fn fold_kinds_exec(h: u64, s: &Vec<SingleTransactionKind>) -> (out: u64)
    ensures
        out == fold_kinds(h, s.deep_view()),
{
    let mut acc: u64 = h;
    let mut i: usize = 0;
    while i < s.len()
        invariant
            i <= s.len(),
            acc == fold_kinds(h, s.deep_view().take(i as int)),
        decreases s.len() - i,
    {
        proof {
            assert(s.deep_view().take(i + 1).drop_last() =~~= s.deep_view().take(i as int));
            assert(s.deep_view().take(i + 1).last() == s@[i as int]@);
        }
        acc = mix_exec(acc, digest_of_kind_exec(&s[i]));
        i = i + 1;
    }
    proof {
        assert(s.deep_view().take(s.deep_view().len() as int) =~~= s.deep_view());
    }
    acc
}

/// Digest of a transaction's signed payload.
pub open spec fn digest_of_data(d: TransactionDataV) -> TransactionDigest {
    mix(mix_ref(mix(fold_kinds(0xDA7Au64, d.kinds), d.sender), d.gas_payment), d.gas_budget)
}

pub fn digest_of_data_exec(d: &TransactionData) -> (out: TransactionDigest)
    ensures
        out == digest_of_data(d@),
{
    mix_exec(
        mix_ref_exec(mix_exec(fold_kinds_exec(0xDA7Au64, &d.kinds), d.sender), d.gas_payment),
        d.gas_budget,
    )
}

// ---------------------------------------------------------------------
// Signatures and transactions
// ---------------------------------------------------------------------
/// A signature: the signer's key identity bound to the digest it signed.
/// (Cryptographic primitives are outside this library; a key and its
/// holder's identity coincide in the model.)
#[derive(Clone, Copy, Debug, PartialEq, Eq, Structural)]
pub struct Signature {
    pub signer: u64,
    pub signed_digest: u64,
}

impl Signature {
    /// Signature over a transaction payload by the holder of `secret`.
    pub fn new(data: &TransactionData, secret: u64) -> (r: Signature)
        ensures
            r == (Signature { signer: secret, signed_digest: digest_of_data(data@) }),
    {
        Signature { signer: secret, signed_digest: digest_of_data_exec(data) }
    }
}

/// Whether `sig` is `who`'s signature over the digest `d`.
pub open spec fn signature_valid(sig: Signature, who: u64, d: u64) -> bool {
    sig.signer == who && sig.signed_digest == d
}

/// Ghost image of `Transaction`.
#[verifier::ext_equal]
pub struct TransactionV {
    pub data: TransactionDataV,
    pub tx_signature: Signature,
}

/// A transaction: payload plus the sender's signature over it.
pub struct Transaction {
    pub data: TransactionData,
    pub tx_signature: Signature,
}

impl View for Transaction {
    type V = TransactionV;

    open spec fn view(&self) -> TransactionV {
        TransactionV { data: self.data@, tx_signature: self.tx_signature }
    }
}

impl TransactionV {
    /// The transaction's digest: the digest of its payload.
    pub open spec fn digest(self) -> TransactionDigest {
        digest_of_data(self.data)
    }

    /// The sender's signature verifies against the payload.
    pub open spec fn signature_ok(self) -> bool {
        signature_valid(self.tx_signature, self.data.sender, self.digest())
    }
}

impl Transaction {
    /// Pair a payload with a signature.
    pub fn new(data: TransactionData, signature: Signature) -> (r: Transaction)
        ensures
            r@ == (TransactionV { data: data@, tx_signature: signature }),
    {
        Transaction { data, tx_signature: signature }
    }

    pub fn digest(&self) -> (r: TransactionDigest)
        ensures
            r == self@.digest(),
    {
        digest_of_data_exec(&self.data)
    }

    /// Check the sender's signature.
    pub fn signature_ok(&self) -> (r: bool)
        ensures
            r == self@.signature_ok(),
    {
        let d = self.digest();
        self.tx_signature.signer == self.data.sender && self.tx_signature.signed_digest == d
    }
}

/// Authority counter-signature over a transaction, tied to an epoch.
#[derive(Clone, Copy, Debug, PartialEq, Eq, Structural)]
pub struct AuthoritySignInfo {
    pub epoch: EpochId,
    pub authority: AuthorityName,
    pub signature: Signature,
}

/// Ghost image of `SignedTransaction`.
#[verifier::ext_equal]
pub struct SignedTransactionV {
    pub transaction: TransactionV,
    pub auth_signature: AuthoritySignInfo,
}

/// A transaction one authority has voted for.
pub struct SignedTransaction {
    pub transaction: Transaction,
    pub auth_signature: AuthoritySignInfo,
}

impl View for SignedTransaction {
    type V = SignedTransactionV;

    open spec fn view(&self) -> SignedTransactionV {
        SignedTransactionV { transaction: self.transaction@, auth_signature: self.auth_signature }
    }
}

impl SignedTransactionV {
    /// The authority's signature verifies against the transaction digest.
    pub open spec fn auth_signature_ok(self) -> bool {
        signature_valid(
            self.auth_signature.signature,
            self.auth_signature.authority,
            self.transaction.digest(),
        )
    }
}

impl SignedTransaction {
    /// An authority's vote: counter-sign the transaction.
    pub fn new(epoch: EpochId, transaction: Transaction, authority: AuthorityName) -> (r:
        SignedTransaction)
        ensures
            r@.transaction == transaction@,
            r@.auth_signature == (AuthoritySignInfo {
                epoch,
                authority,
                signature: Signature {
                    signer: authority,
                    signed_digest: transaction@.digest(),
                },
            }),
            r@.auth_signature_ok(),
    {
        let d = transaction.digest();
        SignedTransaction {
            transaction,
            auth_signature: AuthoritySignInfo {
                epoch,
                authority,
                signature: Signature { signer: authority, signed_digest: d },
            },
        }
    }
}

// ---------------------------------------------------------------------
// Clone helpers for the vector-bearing types
// ---------------------------------------------------------------------
/// Copy a vector of copyable elements, preserving the view.
pub fn copy_vec<T: Copy>(s: &Vec<T>) -> (r: Vec<T>)
    ensures
        r@ == s@,
{
    let mut out: Vec<T> = Vec::new();
    let mut i: usize = 0;
    while i < s.len()
        invariant
            i <= s.len(),
            out@ =~~= s@.take(i as int),
        decreases s.len() - i,
    {
        out.push(s[i]);
        i = i + 1;
    }
    proof {
        assert(s@.take(s@.len() as int) =~~= s@);
    }
    out
}

/// Copy a vector of byte strings, preserving the deep view.
pub fn copy_byte_seqs(s: &Vec<Vec<u8>>) -> (r: Vec<Vec<u8>>)
    ensures
        r.deep_view() == s.deep_view(),
{
    let mut out: Vec<Vec<u8>> = Vec::new();
    let mut i: usize = 0;
    while i < s.len()
        invariant
            i <= s.len(),
            out@.len() == i,
            forall|j: int| 0 <= j < i ==> (#[trigger] out@[j])@ == s@[j]@,
        decreases s.len() - i,
    {
        out.push(copy_vec(&s[i]));
        i = i + 1;
    }
    proof {
        assert forall|j: int| 0 <= j < s@.len() implies out.deep_view()[j] == s.deep_view()[j] by {
            assert(out@[j]@ == s@[j]@);
            assert(out@[j].deep_view() =~= out@[j]@);
            assert(s@[j].deep_view() =~= s@[j]@);
        }
        assert(out.deep_view() =~= s.deep_view());
    }
    out
}

impl MoveCall {
    pub fn clone_call(&self) -> (r: MoveCall)
        ensures
            r@ == self@,
    {
        let r = MoveCall {
            package: self.package,
            module: self.module,
            function: self.function,
            type_arguments: copy_vec(&self.type_arguments),
            object_arguments: copy_vec(&self.object_arguments),
            shared_object_arguments: copy_vec(&self.shared_object_arguments),
            pure_arguments: copy_byte_seqs(&self.pure_arguments),
        };
        r
    }
}

impl ModuleDef {
    pub fn clone_module(&self) -> (r: ModuleDef)
        ensures
            r@ == self@,
    {
        ModuleDef { name: self.name, dependencies: copy_vec(&self.dependencies) }
    }
}

impl SingleTransactionKind {
    pub fn clone_kind(&self) -> (r: SingleTransactionKind)
        ensures
            r@ == self@,
    {
        match self {
            SingleTransactionKind::Transfer(t) => SingleTransactionKind::Transfer(*t),
            SingleTransactionKind::Call(c) => SingleTransactionKind::Call(c.clone_call()),
            SingleTransactionKind::Publish(p) => {
                let mut mods: Vec<ModuleDef> = Vec::new();
                let mut i: usize = 0;
                while i < p.modules.len()
                    invariant
                        i <= p.modules.len(),
                        mods@.len() == i,
                        forall|j: int| 0 <= j < i ==> (#[trigger] mods@[j])@ == p.modules@[j]@,
                    decreases p.modules.len() - i,
                {
                    mods.push(p.modules[i].clone_module());
                    i = i + 1;
                }
                proof {
                    assert forall|j: int|
                        0 <= j < p.modules@.len() implies mods.deep_view()[j]
                        == p.modules.deep_view()[j] by {
                        assert(mods@[j]@ == p.modules@[j]@);
                    }
                    assert(mods.deep_view() =~~= p.modules.deep_view());
                }
                SingleTransactionKind::Publish(MoveModulePublish { modules: mods })
            },
        }
    }
}

impl TransactionData {
    pub fn clone_data(&self) -> (r: TransactionData)
        ensures
            r@ == self@,
    {
        let mut kinds: Vec<SingleTransactionKind> = Vec::new();
        let mut i: usize = 0;
        while i < self.kinds.len()
            invariant
                i <= self.kinds.len(),
                kinds@.len() == i,
                forall|j: int| 0 <= j < i ==> (#[trigger] kinds@[j])@ == self.kinds@[j]@,
            decreases self.kinds.len() - i,
        {
            kinds.push(self.kinds[i].clone_kind());
            i = i + 1;
        }
        proof {
            assert forall|j: int|
                0 <= j < self.kinds@.len() implies kinds.deep_view()[j]
                == self.kinds.deep_view()[j] by {
                assert(kinds@[j]@ == self.kinds@[j]@);
            }
            assert(kinds.deep_view() =~~= self.kinds.deep_view());
        }
        TransactionData {
            kinds,
            sender: self.sender,
            gas_payment: self.gas_payment,
            gas_budget: self.gas_budget,
        }
    }
}

impl Transaction {
    pub fn clone_transaction(&self) -> (r: Transaction)
        ensures
            r@ == self@,
    {
        Transaction { data: self.data.clone_data(), tx_signature: self.tx_signature }
    }
}

impl SignedTransaction {
    pub fn clone_signed(&self) -> (r: SignedTransaction)
        ensures
            r@ == self@,
    {
        SignedTransaction {
            transaction: self.transaction.clone_transaction(),
            auth_signature: self.auth_signature,
        }
    }
}

// ---------------------------------------------------------------------
// Certificates
// ---------------------------------------------------------------------
/// Ghost image of `CertifiedTransaction`.
#[verifier::ext_equal]
pub struct CertifiedTransactionV {
    pub epoch: EpochId,
    pub transaction: TransactionV,
    pub signatures: Seq<(AuthorityName, Signature)>,
}

/// A transaction together with authority signatures whose combined
/// weight reaches the quorum threshold of the epoch's committee.
pub struct CertifiedTransaction {
    pub epoch: EpochId,
    pub transaction: Transaction,
    pub signatures: Vec<(AuthorityName, Signature)>,
}

impl View for CertifiedTransaction {
    type V = CertifiedTransactionV;

    open spec fn view(&self) -> CertifiedTransactionV {
        CertifiedTransactionV {
            epoch: self.epoch,
            transaction: self.transaction@,
            signatures: self.signatures@,
        }
    }
}

impl CertifiedTransaction {
    pub fn clone_certified(&self) -> (r: CertifiedTransaction)
        ensures
            r@ == self@,
    {
        let r = CertifiedTransaction {
            epoch: self.epoch,
            transaction: self.transaction.clone_transaction(),
            signatures: copy_vec(&self.signatures),
        };
        proof {
            assert(r@ =~~= self@);
        }
        r
    }

    pub fn digest(&self) -> (r: TransactionDigest)
        ensures
            r == self@.transaction.digest(),
    {
        self.transaction.digest()
    }
}

/// A certificate on its way to execution by an authority.
pub struct ConfirmationTransaction {
    pub certificate: CertifiedTransaction,
}

impl ConfirmationTransaction {
    pub fn new(certificate: CertifiedTransaction) -> (r: ConfirmationTransaction)
        ensures
            r.certificate@ == certificate@,
    {
        ConfirmationTransaction { certificate }
    }
}

/// No authority appears twice in a signature list.
pub open spec fn distinct_names(s: Seq<(AuthorityName, Signature)>) -> bool {
    forall|i: int, j: int| 0 <= i < j < s.len() ==> (#[trigger] s[i]).0 != (#[trigger] s[j]).0
}

/// Combined committee weight of a signature list.
pub open spec fn sum_sig_weights(c: Committee, s: Seq<(AuthorityName, Signature)>) -> int
    decreases s.len(),
{
    if s.len() == 0 {
        0
    } else {
        sum_sig_weights(c, s.drop_last()) + c.weight_of(s.last().0)
    }
}

/// A certificate is valid for a committee: right epoch, distinct known
/// signers, every signature verifies against the transaction digest, and
/// the combined weight reaches the quorum threshold.
pub open spec fn valid_certificate(cert: CertifiedTransactionV, c: Committee) -> bool {
    &&& cert.epoch == c.spec_epoch()
    &&& distinct_names(cert.signatures)
    &&& forall|i: int|
        0 <= i < cert.signatures.len() ==> signature_valid(
            (#[trigger] cert.signatures[i]).1,
            cert.signatures[i].0,
            cert.transaction.digest(),
        ) && c.weight_of(cert.signatures[i].0) >= 1
    &&& sum_sig_weights(c, cert.signatures) >= quorum_threshold_spec(c.spec_total_votes() as int)
}

/// The sum of signature weights only grows along a prefix.
proof fn lemma_sum_sig_weights_mono(c: Committee, s: Seq<(AuthorityName, Signature)>, i: int)
    requires
        0 <= i <= s.len(),
    ensures
        sum_sig_weights(c, s.take(i)) <= sum_sig_weights(c, s),
    decreases s.len() - i,
{
    if i < s.len() {
        lemma_sum_sig_weights_mono(c, s, i + 1);
        assert(s.take(i + 1).drop_last() =~= s.take(i));
        assert(s.take(i + 1).last() == s[i]);
    } else {
        assert(s.take(i) =~= s);
    }
}

/// Check a certificate against a committee.
pub fn check_certificate(cert: &CertifiedTransaction, committee: &Committee) -> (r: bool)
    requires
        committee.wf(),
    ensures
        r == valid_certificate(cert@, *committee),
{
    if cert.epoch != committee.epoch() {
        return false;
    }
    let digest = cert.transaction.digest();
    let quorum = committee.quorum_threshold();
    let n = cert.signatures.len();
    let mut acc: u64 = 0;
    let mut reached: bool = false;
    let mut i: usize = 0;
    while i < n
        invariant
            committee.wf(),
            n == cert.signatures@.len(),
            i <= n,
            digest == cert@.transaction.digest(),
            quorum == quorum_threshold_spec(committee.spec_total_votes() as int),
            forall|p: int, q: int|
                0 <= p < q < i ==> (#[trigger] cert.signatures@[p]).0 != (
                #[trigger] cert.signatures@[q]).0,
            forall|p: int|
                0 <= p < i ==> signature_valid(
                    (#[trigger] cert.signatures@[p]).1,
                    cert.signatures@[p].0,
                    digest,
                ) && committee.weight_of(cert.signatures@[p].0) >= 1,
            reached <==> sum_sig_weights(*committee, cert.signatures@.take(i as int)) >= quorum,
            !reached ==> acc == sum_sig_weights(*committee, cert.signatures@.take(i as int)),
            acc <= quorum,
        decreases n - i,
    {
        let (name, sig) = cert.signatures[i];
        if !(sig.signer == name && sig.signed_digest == digest) {
            return false;
        }
        let w = committee.weight(name);
        if w == 0 {
            return false;
        }
        let mut j: usize = 0;
        while j < i
            invariant
                j <= i,
                i < n,
                n == cert.signatures@.len(),
                name == cert.signatures@[i as int].0,
                forall|p: int| 0 <= p < j ==> (#[trigger] cert.signatures@[p]).0 != name,
            decreases i - j,
        {
            if cert.signatures[j].0 == name {
                return false;
            }
            j = j + 1;
        }
        proof {
            assert(cert.signatures@.take(i + 1).drop_last() =~= cert.signatures@.take(i as int));
            assert(cert.signatures@.take(i + 1).last() == cert.signatures@[i as int]);
        }
        if !reached {
            if w >= quorum - acc {
                reached = true;
            } else {
                acc = acc + w;
            }
        } else {
            proof {
                lemma_sum_sig_weights_mono(
                    *committee,
                    cert.signatures@.take(i + 1),
                    i as int,
                );
                assert(cert.signatures@.take(i + 1).take(i as int) =~= cert.signatures@.take(
                    i as int,
                ));
            }
        }
        i = i + 1;
    }
    proof {
        assert(cert.signatures@.take(n as int) =~= cert.signatures@);
    }
    reached
}

// ---------------------------------------------------------------------
// Signature aggregation
// ---------------------------------------------------------------------
/// Accumulates authority signatures over one transaction until their
/// combined weight reaches the committee's quorum threshold.
pub struct SignatureAggregator {
    pub committee: Committee,
    pub transaction: Transaction,
    pub weight: u64,
    pub signatures: Vec<(AuthorityName, Signature)>,
}

impl SignatureAggregator {
    /// Internal consistency of a partially built certificate.
    pub open spec fn wf(self) -> bool {
        &&& self.committee.wf()
        &&& self.transaction@.signature_ok()
        &&& distinct_names(self.signatures@)
        &&& forall|i: int|
            0 <= i < self.signatures@.len() ==> signature_valid(
                (#[trigger] self.signatures@[i]).1,
                self.signatures@[i].0,
                self.transaction@.digest(),
            ) && self.committee.weight_of(self.signatures@[i].0) >= 1
        &&& self.weight == sum_sig_weights(self.committee, self.signatures@)
        &&& self.weight <= self.committee.spec_total_votes()
    }

    /// Start aggregating; rejects a transaction whose own signature
    /// does not verify.
    pub fn try_new(transaction: Transaction, committee: &Committee) -> (r: Result<
        SignatureAggregator,
        SuiError,
    >)
        requires
            committee.wf(),
        ensures
            match r {
                Ok(a) => {
                    &&& a.wf()
                    &&& a.weight == 0
                    &&& a.signatures@.len() == 0
                    &&& a.transaction@ == transaction@
                    &&& a.committee.weights() == committee.weights()
                    &&& a.committee.spec_epoch() == committee.spec_epoch()
                    &&& a.committee.spec_total_votes() == committee.spec_total_votes()
                    &&& transaction@.signature_ok()
                },
                Err(e) => e == SuiError::InvalidSignature && !transaction@.signature_ok(),
            },
    {
        if transaction.signature_ok() {
            Ok(
                SignatureAggregator {
                    committee: committee.clone(),
                    transaction,
                    weight: 0,
                    signatures: Vec::new(),
                },
            )
        } else {
            Err(SuiError::InvalidSignature)
        }
    }

    /// The first reason to reject one more signature, if any: an invalid
    /// signature, a signer outside the committee, or a repeated signer.
    pub open spec fn append_checks(self, authority: AuthorityName, signature: Signature) -> Option<
        SuiError,
    > {
        if !signature_valid(signature, authority, self.transaction@.digest()) {
            Some(SuiError::InvalidSignature)
        } else if self.committee.weight_of(authority) == 0 {
            Some(SuiError::UnknownSigner)
        } else if exists|i: int|
            0 <= i < self.signatures@.len() && (#[trigger] self.signatures@[i]).0 == authority {
            Some(SuiError::DuplicateSigner)
        } else {
            None
        }
    }

    /// Add one authority's signature; the checks decide, in order, and a
    /// signature passing them is always folded in. Returns the finished
    /// certificate once the accumulated weight reaches the quorum
    /// threshold.
    pub fn append(&mut self, authority: AuthorityName, signature: Signature) -> (r: Result<
        Option<CertifiedTransaction>,
        SuiError,
    >)
        requires
            old(self).wf(),
        ensures
            final(self).wf(),
            final(self).committee == old(self).committee,
            final(self).transaction@ == old(self).transaction@,
            match old(self).append_checks(authority, signature) {
                Some(e) => r == Err::<Option<CertifiedTransaction>, SuiError>(e) && *final(self)
                    == *old(self),
                None => r is Ok,
            },
            match r {
                Err(e) => {
                    &&& final(self).weight == old(self).weight
                    &&& final(self).signatures@ == old(self).signatures@
                },
                Ok(opt) => {
                    &&& signature_valid(signature, authority, old(self).transaction@.digest())
                    &&& old(self).committee.weight_of(authority) >= 1
                    &&& final(self).signatures@ == old(self).signatures@.push(
                        (authority, signature),
                    )
                    &&& final(self).weight == old(self).weight + old(self).committee.weight_of(
                        authority,
                    )
                    &&& match opt {
                        None => (final(self).weight as int) < quorum_threshold_spec(
                            old(self).committee.spec_total_votes() as int,
                        ),
                        Some(cert) => {
                            &&& final(self).weight as int >= quorum_threshold_spec(
                                old(self).committee.spec_total_votes() as int,
                            )
                            &&& cert@.transaction == old(self).transaction@
                            &&& cert@.epoch == old(self).committee.spec_epoch()
                            &&& cert@.signatures == final(self).signatures@
                            &&& valid_certificate(cert@, old(self).committee)
                        },
                    }
                },
            },
    {
        let digest = self.transaction.digest();
        if !(signature.signer == authority && signature.signed_digest == digest) {
            return Err(SuiError::InvalidSignature);
        }
        let w = self.committee.weight(authority);
        if w == 0 {
            return Err(SuiError::UnknownSigner);
        }
        let mut j: usize = 0;
        let n = self.signatures.len();
        while j < n
            invariant
                *self == *old(self),
                old(self).wf(),
                signature_valid(signature, authority, old(self).transaction@.digest()),
                old(self).committee.weight_of(authority) >= 1,
                j <= n,
                n == self.signatures@.len(),
                forall|p: int| 0 <= p < j ==> (#[trigger] self.signatures@[p]).0 != authority,
            decreases n - j,
        {
            if self.signatures[j].0 == authority {
                proof {
                    assert(old(self).signatures@[j as int].0 == authority);
                }
                return Err(SuiError::DuplicateSigner);
            }
            j = j + 1;
        }
        proof {
            lemma_append_weight_bounded(self.committee, self.signatures@, authority);
        }
        self.signatures.push((authority, signature));
        self.weight = self.weight + w;
        proof {
            assert(self.signatures@.drop_last() =~= old(self).signatures@);
            assert(self.signatures@.last() == (authority, signature));
        }
        let quorum = self.committee.quorum_threshold();
        if self.weight >= quorum {
            let cert = CertifiedTransaction {
                epoch: self.committee.epoch(),
                transaction: self.transaction.clone_transaction(),
                signatures: copy_vec(&self.signatures),
            };
            proof {
                assert(cert@ =~~= (CertifiedTransactionV {
                    epoch: self.committee.spec_epoch(),
                    transaction: self.transaction@,
                    signatures: self.signatures@,
                }));
            }
            Ok(Some(cert))
        } else {
            Ok(None)
        }
    }
}

/// Appending a fresh member's signature keeps the summed weight within
/// the committee's total.
proof fn lemma_append_weight_bounded(
    c: Committee,
    s: Seq<(AuthorityName, Signature)>,
    extra: AuthorityName,
)
    requires
        c.wf(),
        distinct_names(s),
        forall|i: int| 0 <= i < s.len() ==> (#[trigger] s[i]).0 != extra,
    ensures
        sum_sig_weights(c, s) + c.weight_of(extra) <= c.spec_total_votes(),
{
    let used = Seq::new(s.len(), |i: int| s[i].0).push(extra);
    assert(forall|i: int, j: int| 0 <= i < j < used.len() ==> used[i] != used[j]) by {
        assert(forall|i: int| 0 <= i < s.len() ==> used[i] == (#[trigger] s[i]).0);
    }
    lemma_sum_sig_weights_as_lookup(c, s, extra);
    c.voting_rights.lemma_distinct_lookup_sum_bound(used);
}

/// Restate the signature-weight sum as a lookup sum over the names.
proof fn lemma_sum_sig_weights_as_lookup(
    c: Committee,
    s: Seq<(AuthorityName, Signature)>,
    extra: AuthorityName,
)
    ensures
        sum_sig_weights(c, s) + c.weight_of(extra) == crate::vecmap::sum_lookup(
            c.weights(),
            Seq::new(s.len(), |i: int| s[i].0).push(extra),
        ),
    decreases s.len(),
{
    let names = Seq::new(s.len(), |i: int| s[i].0);
    let m = c.weights();
    assert(names.push(extra).drop_last() =~= names);
    assert(names.push(extra).last() == extra);
    assert(crate::vecmap::sum_lookup(m, names.push(extra)) == crate::vecmap::sum_lookup(m, names)
        + crate::vecmap::lookup_or_zero(m, extra));
    assert(c.weight_of(extra) as int == crate::vecmap::lookup_or_zero(m, extra));
    if s.len() == 0 {
        assert(sum_sig_weights(c, s) == 0);
        assert(crate::vecmap::sum_lookup(m, names) == 0);
    } else {
        lemma_sum_sig_weights_as_lookup(c, s.drop_last(), s.last().0);
        assert(Seq::new(s.drop_last().len(), |i: int| s.drop_last()[i].0).push(s.last().0)
            =~= names);
        assert(sum_sig_weights(c, s) == sum_sig_weights(c, s.drop_last()) + c.weight_of(
            s.last().0,
        ));
    }
}

/// The signature-weight sum depends only on the committee's weights.
proof fn lemma_sum_sig_weights_congruent(
    c1: Committee,
    c2: Committee,
    s: Seq<(AuthorityName, Signature)>,
)
    requires
        c1.weights() == c2.weights(),
    ensures
        sum_sig_weights(c1, s) == sum_sig_weights(c2, s),
    decreases s.len(),
{
    if s.len() > 0 {
        lemma_sum_sig_weights_congruent(c1, c2, s.drop_last());
    }
}

/// Certificate validity depends only on the committee's epoch, weights
/// and total weight.
pub proof fn lemma_valid_certificate_congruent(
    c1: Committee,
    c2: Committee,
    cert: CertifiedTransactionV,
)
    requires
        c1.spec_epoch() == c2.spec_epoch(),
        c1.spec_total_votes() == c2.spec_total_votes(),
        c1.weights() == c2.weights(),
    ensures
        valid_certificate(cert, c1) == valid_certificate(cert, c2),
{
    lemma_sum_sig_weights_congruent(c1, c2, cert.signatures);
}

// ---------------------------------------------------------------------
// Transaction effects
// ---------------------------------------------------------------------
/// Gas charged for one transaction: computation, storage, and the
/// rebate refunded for storage given back.
#[derive(Clone, Copy, Debug, PartialEq, Eq, Structural)]
pub struct GasCostSummary {
    pub computation_cost: u64,
    pub storage_cost: u64,
    pub storage_rebate: u64,
}

impl GasCostSummary {
    /// Gas deducted before the rebate: computation plus storage.
    pub open spec fn gas_used(self) -> int {
        self.computation_cost + self.storage_cost
    }
}

/// Why an execution failed.
#[derive(Clone, Copy, Debug, PartialEq, Eq, Structural)]
pub enum ExecutionFailureKind {
    /// An input of a transfer was not an address-owned object.
    TransferUnowned,
    /// The opaque executor reported failure.
    MoveAbort,
    /// Gas charging itself failed.
    InsufficientGas,
}

/// Outcome of executing one certificate, with the gas charged either way.
#[derive(Clone, Copy, Debug, PartialEq, Eq, Structural)]
pub enum ExecutionStatus {
    Success { gas_cost: GasCostSummary },
    Failure { gas_cost: GasCostSummary, error: ExecutionFailureKind },
}

impl ExecutionStatus {
    pub open spec fn gas_cost_spec(self) -> GasCostSummary {
        match self {
            ExecutionStatus::Success { gas_cost } => gas_cost,
            ExecutionStatus::Failure { gas_cost, .. } => gas_cost,
        }
    }

    pub fn gas_cost_summary(&self) -> (r: GasCostSummary)
        ensures
            r == self.gas_cost_spec(),
    {
        match self {
            ExecutionStatus::Success { gas_cost } => *gas_cost,
            ExecutionStatus::Failure { gas_cost, .. } => *gas_cost,
        }
    }

    pub fn is_ok(&self) -> (r: bool)
        ensures
            r == (*self is Success),
    {
        match self {
            ExecutionStatus::Success { .. } => true,
            ExecutionStatus::Failure { .. } => false,
        }
    }
}

/// Ghost image of `TransactionEffects`.
#[verifier::ext_equal]
pub struct TransactionEffectsV {
    pub status: ExecutionStatus,
    pub transaction_digest: TransactionDigest,
    pub created: Seq<(ObjectRef, Owner)>,
    pub mutated: Seq<(ObjectRef, Owner)>,
    pub deleted: Seq<ObjectRef>,
    pub gas_object: (ObjectRef, Owner),
    pub dependencies: Seq<TransactionDigest>,
}

/// What one executed certificate did: the object references it created,
/// mutated and deleted, the gas object, the gas charged, and the status.
/// Produced once per executed certificate and immutable thereafter.
pub struct TransactionEffects {
    pub status: ExecutionStatus,
    pub transaction_digest: TransactionDigest,
    pub created: Vec<(ObjectRef, Owner)>,
    pub mutated: Vec<(ObjectRef, Owner)>,
    pub deleted: Vec<ObjectRef>,
    pub gas_object: (ObjectRef, Owner),
    pub dependencies: Vec<TransactionDigest>,
}

impl View for TransactionEffects {
    type V = TransactionEffectsV;

    open spec fn view(&self) -> TransactionEffectsV {
        TransactionEffectsV {
            status: self.status,
            transaction_digest: self.transaction_digest,
            created: self.created@,
            mutated: self.mutated@,
            deleted: self.deleted@,
            gas_object: self.gas_object,
            dependencies: self.dependencies@,
        }
    }
}

impl TransactionEffects {
    pub fn clone_effects(&self) -> (r: TransactionEffects)
        ensures
            r@ == self@,
    {
        let r = TransactionEffects {
            status: self.status,
            transaction_digest: self.transaction_digest,
            created: copy_vec(&self.created),
            mutated: copy_vec(&self.mutated),
            deleted: copy_vec(&self.deleted),
            gas_object: self.gas_object,
            dependencies: copy_vec(&self.dependencies),
        };
        proof {
            assert(r@ =~~= self@);
        }
        r
    }
}

/// Mix a reference/owner pair into a fingerprint.
pub open spec fn mix_ref_owner(h: u64, p: (ObjectRef, Owner)) -> u64 {
    mix(mix(mix_ref(h, p.0), p.1.words().0), p.1.words().1)
}

fn owner_words_exec(o: Owner) -> (r: (u64, u64))
    ensures
        r == o.words(),
{
    match o {
        Owner::AddressOwner(a) => (1u64, a),
        Owner::Shared => (2u64, 0u64),
        Owner::Immutable => (3u64, 0u64),
    }
}

pub fn mix_ref_owner_exec(h: u64, p: (ObjectRef, Owner)) -> (r: u64)
    ensures
        r == mix_ref_owner(h, p),
{
    let w = owner_words_exec(p.1);
    mix_exec(mix_exec(mix_ref_exec(h, p.0), w.0), w.1)
}

/// Fold a sequence of reference/owner pairs.
pub open spec fn fold_ref_owners(h: u64, s: Seq<(ObjectRef, Owner)>) -> u64
    decreases s.len(),
{
    if s.len() == 0 {
        h
    } else {
        mix_ref_owner(fold_ref_owners(h, s.drop_last()), s.last())
    }
}

pub fn fold_ref_owners_exec(h: u64, s: &Vec<(ObjectRef, Owner)>) -> (out: u64)
    ensures
        out == fold_ref_owners(h, s@),
{
    let mut acc: u64 = h;
    let mut i: usize = 0;
    while i < s.len()
        invariant
            i <= s.len(),
            acc == fold_ref_owners(h, s@.take(i as int)),
        decreases s.len() - i,
    {
        proof {
            assert(s@.take(i + 1).drop_last() =~= s@.take(i as int));
        }
        acc = mix_ref_owner_exec(acc, s[i]);
        i = i + 1;
    }
    proof {
        assert(s@.take(s@.len() as int) =~= s@);
    }
    acc
}

/// Fingerprint of an execution status.
pub open spec fn digest_of_status(s: ExecutionStatus) -> u64 {
    match s {
        ExecutionStatus::Success { gas_cost } => mix(
            mix(mix(1, gas_cost.computation_cost), gas_cost.storage_cost),
            gas_cost.storage_rebate,
        ),
        ExecutionStatus::Failure { gas_cost, error } => mix(
            mix(
                mix(mix(2, gas_cost.computation_cost), gas_cost.storage_cost),
                gas_cost.storage_rebate,
            ),
            match error {
                ExecutionFailureKind::TransferUnowned => 1,
                ExecutionFailureKind::MoveAbort => 2,
                ExecutionFailureKind::InsufficientGas => 3,
            },
        ),
    }
}

fn digest_of_status_exec(s: &ExecutionStatus) -> (r: u64)
    ensures
        r == digest_of_status(*s),
{
    match s {
        ExecutionStatus::Success { gas_cost } => mix_exec(
            mix_exec(mix_exec(1, gas_cost.computation_cost), gas_cost.storage_cost),
            gas_cost.storage_rebate,
        ),
        ExecutionStatus::Failure { gas_cost, error } => mix_exec(
            mix_exec(
                mix_exec(mix_exec(2, gas_cost.computation_cost), gas_cost.storage_cost),
                gas_cost.storage_rebate,
            ),
            match error {
                ExecutionFailureKind::TransferUnowned => 1,
                ExecutionFailureKind::MoveAbort => 2,
                ExecutionFailureKind::InsufficientGas => 3,
            },
        ),
    }
}

/// Digest of a transaction's effects; authorities agreeing on this value
/// agree on everything the execution did.
pub open spec fn digest_of_effects(e: TransactionEffectsV) -> u64 {
    let h0 = mix(mix(0xEFF0u64, digest_of_status(e.status)), e.transaction_digest);
    let h1 = fold_ref_owners(h0, e.created);
    let h2 = fold_ref_owners(mix(h1, 1), e.mutated);
    let h3 = fold_refs(mix(h2, 2), e.deleted);
    let h4 = mix_ref_owner(h3, e.gas_object);
    mix_words(h4, e.dependencies)
}

pub fn digest_of_effects_exec(e: &TransactionEffects) -> (r: u64)
    ensures
        r == digest_of_effects(e@),
{
    let h0 = mix_exec(mix_exec(0xEFF0u64, digest_of_status_exec(&e.status)), e.transaction_digest);
    let h1 = fold_ref_owners_exec(h0, &e.created);
    let h2 = fold_ref_owners_exec(mix_exec(h1, 1), &e.mutated);
    let h3 = fold_refs_exec(mix_exec(h2, 2), &e.deleted);
    let h4 = mix_ref_owner_exec(h3, e.gas_object);
    mix_words_exec(h4, &e.dependencies)
}

/// Effects counter-signed by the executing authority.
pub struct SignedTransactionEffects {
    pub effects: TransactionEffects,
    pub auth_signature: AuthoritySignInfo,
}

/// Ghost image of `SignedTransactionEffects`.
#[verifier::ext_equal]
pub struct SignedTransactionEffectsV {
    pub effects: TransactionEffectsV,
    pub auth_signature: AuthoritySignInfo,
}

impl View for SignedTransactionEffects {
    type V = SignedTransactionEffectsV;

    open spec fn view(&self) -> SignedTransactionEffectsV {
        SignedTransactionEffectsV { effects: self.effects@, auth_signature: self.auth_signature }
    }
}

impl SignedTransactionEffects {
    pub fn clone_signed_effects(&self) -> (r: SignedTransactionEffects)
        ensures
            r@ == self@,
    {
        SignedTransactionEffects {
            effects: self.effects.clone_effects(),
            auth_signature: self.auth_signature,
        }
    }
}

/// Ghost image of `TransactionInfoResponse`.
#[verifier::ext_equal]
pub struct TransactionInfoResponseV {
    pub signed_transaction: Option<SignedTransactionV>,
    pub certified_transaction: Option<CertifiedTransactionV>,
    pub signed_effects: Option<SignedTransactionEffectsV>,
}

/// Everything an authority knows about one transaction.
pub struct TransactionInfoResponse {
    pub signed_transaction: Option<SignedTransaction>,
    pub certified_transaction: Option<CertifiedTransaction>,
    pub signed_effects: Option<SignedTransactionEffects>,
}

impl View for TransactionInfoResponse {
    type V = TransactionInfoResponseV;

    open spec fn view(&self) -> TransactionInfoResponseV {
        TransactionInfoResponseV {
            signed_transaction: match &self.signed_transaction {
                Some(s) => Some(s@),
                None => None,
            },
            certified_transaction: match &self.certified_transaction {
                Some(c) => Some(c@),
                None => None,
            },
            signed_effects: match &self.signed_effects {
                Some(e) => Some(e@),
                None => None,
            },
        }
    }
}

impl TransactionInfoResponse {
    pub fn clone_response(&self) -> (r: TransactionInfoResponse)
        ensures
            r@ == self@,
    {
        TransactionInfoResponse {
            signed_transaction: match &self.signed_transaction {
                Some(s) => Some(s.clone_signed()),
                None => None,
            },
            certified_transaction: match &self.certified_transaction {
                Some(c) => Some(c.clone_certified()),
                None => None,
            },
            signed_effects: match &self.signed_effects {
                Some(e) => Some(e.clone_signed_effects()),
                None => None,
            },
        }
    }
}

// ---------------------------------------------------------------------
// Identity comparisons used when answers must not drift between calls
// ---------------------------------------------------------------------
/// Two certificates describe the same certified transaction: same
/// transaction digest and the same signature set.
pub open spec fn certs_match(a: CertifiedTransactionV, b: CertifiedTransactionV) -> bool {
    a.transaction.digest() == b.transaction.digest() && a.signatures == b.signatures
}

/// A certificate for a transaction is not unique; compare the digest and
/// the signatures instead of the whole value.
pub fn compare_certified_transactions(o1: &CertifiedTransaction, o2: &CertifiedTransaction) -> (r:
    bool)
    ensures
        r == certs_match(o1@, o2@),
{
    if o1.transaction.digest() != o2.transaction.digest() {
        return false;
    }
    let n = o1.signatures.len();
    if n != o2.signatures.len() {
        proof {
            assert(o1@.signatures.len() != o2@.signatures.len());
        }
        return false;
    }
    let mut i: usize = 0;
    while i < n
        invariant
            n == o1.signatures@.len(),
            n == o2.signatures@.len(),
            i <= n,
            forall|j: int| 0 <= j < i ==> o1.signatures@[j] == o2.signatures@[j],
        decreases n - i,
    {
        let a = o1.signatures[i];
        let b = o2.signatures[i];
        if a.0 != b.0 || a.1 != b.1 {
            proof {
                assert(o1.signatures@[i as int] != o2.signatures@[i as int]);
            }
            return false;
        }
        i = i + 1;
    }
    proof {
        assert(o1@.signatures =~= o2@.signatures);
    }
    true
}

/// Two signed transactions match: same transaction digest, same vote.
pub open spec fn signed_txs_match(
    a: Option<SignedTransactionV>,
    b: Option<SignedTransactionV>,
) -> bool {
    match (a, b) {
        (Some(x), Some(y)) => x.transaction.digest() == y.transaction.digest()
            && x.auth_signature == y.auth_signature,
        (None, None) => true,
        _ => false,
    }
}

/// Two signed effects match: same effects digest, same signature.
pub open spec fn signed_effects_match(
    a: Option<SignedTransactionEffectsV>,
    b: Option<SignedTransactionEffectsV>,
) -> bool {
    match (a, b) {
        (Some(x), Some(y)) => digest_of_effects(x.effects) == digest_of_effects(y.effects)
            && x.auth_signature == y.auth_signature,
        (None, None) => true,
        _ => false,
    }
}

/// Two info responses describe the same state of one transaction.
pub open spec fn responses_match(a: TransactionInfoResponseV, b: TransactionInfoResponseV) -> bool {
    &&& signed_txs_match(a.signed_transaction, b.signed_transaction)
    &&& signed_effects_match(a.signed_effects, b.signed_effects)
    &&& match (a.certified_transaction, b.certified_transaction) {
        (Some(x), Some(y)) => certs_match(x, y),
        (None, None) => true,
        _ => false,
    }
}

/// An authority's answers about one transaction must not drift between
/// calls; this comparison checks the identity of each part.
pub fn compare_transaction_info_responses(
    o1: &TransactionInfoResponse,
    o2: &TransactionInfoResponse,
) -> (r: bool)
    ensures
        r == responses_match(o1@, o2@),
{
    let st = match (&o1.signed_transaction, &o2.signed_transaction) {
        (Some(x), Some(y)) => {
            x.transaction.digest() == y.transaction.digest() && x.auth_signature.epoch
                == y.auth_signature.epoch && x.auth_signature.authority == y.auth_signature.authority
                && x.auth_signature.signature == y.auth_signature.signature
        },
        (None, None) => true,
        _ => false,
    };
    if !st {
        return false;
    }
    let se = match (&o1.signed_effects, &o2.signed_effects) {
        (Some(x), Some(y)) => {
            digest_of_effects_exec(&x.effects) == digest_of_effects_exec(&y.effects)
                && x.auth_signature.epoch == y.auth_signature.epoch && x.auth_signature.authority
                == y.auth_signature.authority && x.auth_signature.signature
                == y.auth_signature.signature
        },
        (None, None) => true,
        _ => false,
    };
    if !se {
        return false;
    }
    match (&o1.certified_transaction, &o2.certified_transaction) {
        (Some(x), Some(y)) => compare_certified_transactions(x, y),
        (None, None) => true,
        _ => false,
    }
}

} // verus!
