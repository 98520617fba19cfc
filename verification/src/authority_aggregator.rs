//! The client-side orchestrator: it queries every committee member,
//! collects weighted signatures into certificates, submits certificates
//! for execution, replays certificates to authorities that fell behind,
//! and merges per-authority object listings.

use crate::authority::{has_ref, AuthorityState};
use crate::base::{ObjectId, ObjectRef, SequenceNumber, SuiAddress, SuiError};
use crate::committee::{quorum_threshold_spec, Committee};
use crate::messages::{
    valid_certificate, CertifiedTransaction, ConfirmationTransaction, SignatureAggregator,
    Transaction, TransactionEffects,
};
use crate::objects::{Object, Owner};
use crate::vecmap::VecMap;
use vstd::prelude::*;

verus! {

/// An in-process connection to one authority. (A networked variant would
/// live at the crate's edge; the orchestration below only needs the
/// handlers' contracts.)
pub struct LocalAuthorityClient {
    pub state: AuthorityState,
}

impl LocalAuthorityClient {
    /// A client over a fresh authority preloaded with the genesis
    /// packages and the given objects.
    pub fn new_with_objects(committee: Committee, name: u64, objects: Vec<Object>) -> (r:
        LocalAuthorityClient)
        requires
            committee.wf(),
            forall|i: int| 0 <= i < objects@.len() ==> (#[trigger] objects@[i])@.version < u64::MAX,
        ensures
            r.state.wf(),
            r.state.name == name,
            r.state.committee == committee,
    {
        let mut state = AuthorityState::new(committee, name);
        let mut packages = crate::test_utils::clone_genesis_packages();
        match packages.pop() {
            Some(p) => {
                state.insert_genesis_object(p);
            },
            None => {},
        }
        let n = objects.len();
        let mut i: usize = 0;
        while i < n
            invariant
                state.wf(),
                state.name == name,
                state.committee == committee,
                n == objects@.len(),
                i <= n,
                forall|j: int|
                    0 <= j < objects@.len() ==> (#[trigger] objects@[j])@.version < u64::MAX,
            decreases n - i,
        {
            state.insert_genesis_object(objects[i].clone_object());
            i = i + 1;
        }
        LocalAuthorityClient { state }
    }
}

/// Every client of the list is a well-formed authority.
pub open spec fn clients_wf(s: Seq<(u64, LocalAuthorityClient)>) -> bool {
    forall|i: int| 0 <= i < s.len() ==> (#[trigger] s[i]).1.state.wf()
}

/// Every client is registered under its authority's own name.
pub open spec fn clients_named(s: Seq<(u64, LocalAuthorityClient)>) -> bool {
    forall|i: int| 0 <= i < s.len() ==> (#[trigger] s[i]).0 == s[i].1.state.name
}

/// No authority is registered twice.
pub open spec fn names_distinct(s: Seq<(u64, LocalAuthorityClient)>) -> bool {
    forall|i: int, j: int| 0 <= i < j < s.len() ==> (#[trigger] s[i]).0 != (#[trigger] s[j]).0
}

/// The registered names, in list order.
pub open spec fn names_of(s: Seq<(u64, LocalAuthorityClient)>) -> Seq<u64> {
    s.map_values(|c: (u64, LocalAuthorityClient)| c.0)
}

/// Every client's authority carries a committee with the same epoch,
/// weights and total as the orchestrator's.
pub open spec fn clients_committees_match(
    committee: Committee,
    s: Seq<(u64, LocalAuthorityClient)>,
) -> bool {
    forall|i: int|
        0 <= i < s.len() ==> {
            let c = (#[trigger] s[i]).1.state.committee;
            &&& c.spec_epoch() == committee.spec_epoch()
            &&& c.spec_total_votes() == committee.spec_total_votes()
            &&& c.weights() == committee.weights()
        }
}

/// Combined committee weight of the authorities that would accept the
/// transaction (their admissibility checks pass on their current state).
pub open spec fn accepting_weight(
    committee: Committee,
    clients: Seq<(u64, LocalAuthorityClient)>,
    tx: crate::messages::TransactionV,
) -> int
    decreases clients.len(),
{
    if clients.len() == 0 {
        0
    } else {
        accepting_weight(committee, clients.drop_last(), tx) + (
        if clients.last().1.state.transaction_checks(tx) is None {
            committee.weight_of(clients.last().0) as int
        } else {
            0
        })
    }
}

/// Combined committee weight of the authorities whose recorded effects
/// for `digest` carry the effects digest `ed`.
pub open spec fn effects_weight(
    committee: Committee,
    clients: Seq<(u64, LocalAuthorityClient)>,
    digest: u64,
    ed: u64,
) -> int
    decreases clients.len(),
{
    if clients.len() == 0 {
        0
    } else {
        effects_weight(committee, clients.drop_last(), digest, ed) + (
        if clients.last().1.state.signed_effects.m().contains_key(digest)
            && crate::messages::digest_of_effects(
            clients.last().1.state.signed_effects.m()[digest]@.effects,
        ) == ed {
            committee.weight_of(clients.last().0) as int
        } else {
            0
        })
    }
}

/// A weight per client is at most its looked-up committee weight.
proof fn lemma_effects_weight_le_total(
    committee: Committee,
    clients: Seq<(u64, LocalAuthorityClient)>,
    digest: u64,
    ed: u64,
)
    requires
        committee.wf(),
        names_distinct(clients),
    ensures
        0 <= effects_weight(committee, clients, digest, ed),
        effects_weight(committee, clients, digest, ed) <= committee.spec_total_votes(),
{
    lemma_effects_weight_le_lookup(committee, clients, digest, ed);
    committee.voting_rights.lemma_distinct_lookup_sum_bound(names_of(clients));
}

proof fn lemma_effects_weight_le_lookup(
    committee: Committee,
    clients: Seq<(u64, LocalAuthorityClient)>,
    digest: u64,
    ed: u64,
)
    ensures
        0 <= effects_weight(committee, clients, digest, ed),
        effects_weight(committee, clients, digest, ed) <= crate::vecmap::sum_lookup(
            committee.weights(),
            names_of(clients),
        ),
    decreases clients.len(),
{
    if clients.len() > 0 {
        lemma_effects_weight_le_lookup(committee, clients.drop_last(), digest, ed);
        assert(names_of(clients).drop_last() =~= names_of(clients.drop_last()));
        assert(names_of(clients).last() == clients.last().0);
    }
}

/// One name's weight never exceeds the committee's total.
proof fn lemma_weight_le_total(committee: Committee, name: u64)
    requires
        committee.wf(),
    ensures
        committee.weight_of(name) <= committee.spec_total_votes(),
{
    let names = seq![name];
    assert(names.drop_last() =~= Seq::<u64>::empty());
    assert(names.last() == name);
    assert(crate::vecmap::sum_lookup(committee.weights(), names.drop_last()) == 0);
    assert(crate::vecmap::sum_lookup(committee.weights(), names) == crate::vecmap::lookup_or_zero(
        committee.weights(),
        name,
    ));
    committee.voting_rights.lemma_distinct_lookup_sum_bound(names);
}

/// Combined committee weight of the authorities holding any recorded
/// effects for `digest`.
pub open spec fn total_effects_weight(
    committee: Committee,
    clients: Seq<(u64, LocalAuthorityClient)>,
    digest: u64,
) -> int
    decreases clients.len(),
{
    if clients.len() == 0 {
        0
    } else {
        total_effects_weight(committee, clients.drop_last(), digest) + (
        if clients.last().1.state.signed_effects.m().contains_key(digest) {
            committee.weight_of(clients.last().0) as int
        } else {
            0
        })
    }
}

/// The answering weight never exceeds the committee's total.
proof fn lemma_total_effects_weight_le_total(
    committee: Committee,
    clients: Seq<(u64, LocalAuthorityClient)>,
    digest: u64,
)
    requires
        committee.wf(),
        names_distinct(clients),
    ensures
        0 <= total_effects_weight(committee, clients, digest),
        total_effects_weight(committee, clients, digest) <= committee.spec_total_votes(),
{
    lemma_total_effects_weight_le_lookup(committee, clients, digest);
    committee.voting_rights.lemma_distinct_lookup_sum_bound(names_of(clients));
}

proof fn lemma_total_effects_weight_le_lookup(
    committee: Committee,
    clients: Seq<(u64, LocalAuthorityClient)>,
    digest: u64,
)
    ensures
        0 <= total_effects_weight(committee, clients, digest),
        total_effects_weight(committee, clients, digest) <= crate::vecmap::sum_lookup(
            committee.weights(),
            names_of(clients),
        ),
    decreases clients.len(),
{
    if clients.len() > 0 {
        lemma_total_effects_weight_le_lookup(committee, clients.drop_last(), digest);
        assert(names_of(clients).drop_last() =~= names_of(clients.drop_last()));
        assert(names_of(clients).last() == clients.last().0);
    }
}

/// The tally list is well-formed: effects digests are distinct, each
/// entry's digest is its witness effects' digest, and every witness
/// carries the transaction digest.
pub open spec fn tallies_wf(
    ts: Seq<(u64, u64, crate::messages::TransactionEffects)>,
    digest: u64,
) -> bool {
    &&& forall|t: int, t2: int|
        0 <= t < t2 < ts.len() ==> (#[trigger] ts[t]).0 != (#[trigger] ts[t2]).0
    &&& forall|t: int|
        0 <= t < ts.len() ==> (#[trigger] ts[t]).0 == crate::messages::digest_of_effects(
            ts[t].2@,
        ) && ts[t].2@.transaction_digest == digest
}

/// Every tallied weight is backed by that much recorded agreement among
/// the listed clients.
pub open spec fn tallies_sound(
    committee: Committee,
    clients: Seq<(u64, LocalAuthorityClient)>,
    digest: u64,
    ts: Seq<(u64, u64, crate::messages::TransactionEffects)>,
) -> bool {
    forall|t: int|
        0 <= t < ts.len() ==> (#[trigger] ts[t]).1 as int <= effects_weight(
            committee,
            clients,
            digest,
            ts[t].0,
        )
}

/// Every recorded agreement among the listed clients is tallied.
pub open spec fn tallies_complete(
    committee: Committee,
    clients: Seq<(u64, LocalAuthorityClient)>,
    digest: u64,
    ts: Seq<(u64, u64, crate::messages::TransactionEffects)>,
) -> bool {
    forall|ed: u64|
        #[trigger] effects_weight(committee, clients, digest, ed) <= tally_weight(ts, ed)
}

/// The weight recorded in the tally list for one effects digest: the
/// entry carrying it, or zero where none does.
pub open spec fn tally_weight(
    ts: Seq<(u64, u64, crate::messages::TransactionEffects)>,
    ed: u64,
) -> int
    decreases ts.len(),
{
    if ts.len() == 0 {
        0
    } else if ts.last().0 == ed {
        ts.last().1 as int
    } else {
        tally_weight(ts.drop_last(), ed)
    }
}

/// The orchestrator: the committee and one client per member.
pub struct AuthorityAggregator {
    pub committee: Committee,
    pub authority_clients: Vec<(u64, LocalAuthorityClient)>,
}

/// Every object the first `upto` authorities hold for the address has
/// its current reference listed in `out`.
pub open spec fn covers_owned(
    clients: Seq<(u64, LocalAuthorityClient)>,
    out: Seq<(ObjectRef, Owner)>,
    address: u64,
    upto: int,
) -> bool {
    forall|ci: int, p: int|
        #![trigger clients[ci].1.state.objects.pairs()[p]]
        0 <= ci < upto && 0 <= p < clients[ci].1.state.objects.pairs().len() ==> (
        clients[ci].1.state.objects.pairs()[p].1@.owner == Owner::AddressOwner(address)
            ==> has_ref(out, crate::objects::object_ref(clients[ci].1.state.objects.pairs()[p].1@)))
}

/// Some entry of `out` names the same object as `r`, at `r`'s version
/// or a later one.
pub open spec fn covered_by_id(out: Seq<(ObjectRef, Owner)>, r: ObjectRef) -> bool {
    exists|q: int| 0 <= q < out.len() && (#[trigger] out[q]).0.0 == r.0 && out[q].0.1 >= r.1
}

/// Some authority of the list holds a live object with exactly this
/// reference, owned by the address.
pub open spec fn held_by_some(
    s: Seq<(u64, LocalAuthorityClient)>,
    r: ObjectRef,
    address: u64,
) -> bool {
    exists|i: int|
        0 <= i < s.len() && (#[trigger] s[i]).1.state.holds_ref(r)
            && s[i].1.state.objects.m()[r.0]@.owner == Owner::AddressOwner(address)
}

/// Updating the entry that carries `entry.0` moves only that digest's
/// recorded weight.
proof fn lemma_tally_weight_update(
    ts: Seq<(u64, u64, crate::messages::TransactionEffects)>,
    x: int,
    entry: (u64, u64, crate::messages::TransactionEffects),
    ed: u64,
)
    requires
        0 <= x < ts.len(),
        ts[x].0 == entry.0,
        forall|t: int, t2: int|
            0 <= t < t2 < ts.len() ==> (#[trigger] ts[t]).0 != (#[trigger] ts[t2]).0,
    ensures
        tally_weight(ts.update(x, entry), ed) == if ed == entry.0 {
            entry.1 as int
        } else {
            tally_weight(ts, ed)
        },
    decreases ts.len(),
{
    let up = ts.update(x, entry);
    if x == ts.len() - 1 {
        assert(up.drop_last() =~= ts.drop_last());
        assert(up.last() == entry);
        if ed != entry.0 {
            assert(tally_weight(up, ed) == tally_weight(up.drop_last(), ed));
            assert(tally_weight(ts, ed) == tally_weight(ts.drop_last(), ed));
        }
    } else {
        lemma_tally_weight_update(ts.drop_last(), x, entry, ed);
        assert(up.drop_last() =~= ts.drop_last().update(x, entry));
        assert(up.last() == ts.last());
        assert(ts.last().0 != entry.0);
    }
}

/// With distinct digests, the recorded weight of an entry's digest is
/// exactly the entry's stored weight.
proof fn lemma_tally_weight_at(
    ts: Seq<(u64, u64, crate::messages::TransactionEffects)>,
    x: int,
)
    requires
        0 <= x < ts.len(),
        forall|t: int, t2: int|
            0 <= t < t2 < ts.len() ==> (#[trigger] ts[t]).0 != (#[trigger] ts[t2]).0,
    ensures
        tally_weight(ts, ts[x].0) == ts[x].1 as int,
    decreases ts.len(),
{
    if x == ts.len() - 1 {
    } else {
        lemma_tally_weight_at(ts.drop_last(), x);
        assert(ts.drop_last()[x] == ts[x]);
        assert(ts.last().0 != ts[x].0);
    }
}

/// A digest no entry carries has recorded weight zero.
proof fn lemma_tally_weight_absent(
    ts: Seq<(u64, u64, crate::messages::TransactionEffects)>,
    ed: u64,
)
    requires
        forall|t: int| 0 <= t < ts.len() ==> (#[trigger] ts[t]).0 != ed,
    ensures
        tally_weight(ts, ed) == 0,
    decreases ts.len(),
{
    if ts.len() > 0 {
        assert(ts[ts.len() - 1].0 != ed);
        lemma_tally_weight_absent(ts.drop_last(), ed);
    }
}

/// A digest with positive recorded weight is carried by some entry,
/// whose stored weight is exactly the recorded one.
proof fn lemma_tally_weight_found(
    ts: Seq<(u64, u64, crate::messages::TransactionEffects)>,
    ed: u64,
)
    requires
        tally_weight(ts, ed) > 0,
    ensures
        exists|q: int|
            0 <= q < ts.len() && (#[trigger] ts[q]).0 == ed && ts[q].1 as int == tally_weight(
                ts,
                ed,
            ),
    decreases ts.len(),
{
    if ts.len() > 0 {
        if ts.last().0 == ed {
            assert(ts[ts.len() - 1].0 == ed && ts[ts.len() - 1].1 as int == tally_weight(ts, ed));
        } else {
            lemma_tally_weight_found(ts.drop_last(), ed);
            let q = choose|q: int|
                0 <= q < ts.drop_last().len() && (#[trigger] ts.drop_last()[q]).0 == ed
                    && ts.drop_last()[q].1 as int == tally_weight(ts.drop_last(), ed);
            assert(ts[q].0 == ed && ts[q].1 as int == tally_weight(ts, ed));
        }
    }
}

impl AuthorityAggregator {
    pub open spec fn wf(self) -> bool {
        &&& self.committee.wf()
        &&& clients_wf(self.authority_clients@)
        &&& clients_named(self.authority_clients@)
        &&& names_distinct(self.authority_clients@)
        &&& clients_committees_match(self.committee, self.authority_clients@)
    }

    /// Pair a committee with its clients.
    pub fn new(committee: Committee, authority_clients: Vec<(u64, LocalAuthorityClient)>) -> (r:
        AuthorityAggregator)
        requires
            committee.wf(),
            clients_wf(authority_clients@),
            clients_named(authority_clients@),
            names_distinct(authority_clients@),
            clients_committees_match(committee, authority_clients@),
        ensures
            r.wf(),
            r.committee == committee,
            r.authority_clients@ == authority_clients@,
    {
        AuthorityAggregator { committee, authority_clients }
    }

    /// Replay every certificate the listed sources have executed and the
    /// client has not, in rounds, until the client caught up or the
    /// round budget is spent. Idempotent handlers make a replay of an
    /// already-executed certificate harmless.
    fn replay_known_certificates(
        client: &mut LocalAuthorityClient,
        a: &Vec<(u64, LocalAuthorityClient)>,
        b: &Vec<(u64, LocalAuthorityClient)>,
    )
        requires
            old(client).state.wf(),
            clients_wf(a@),
            clients_wf(b@),
        ensures
            final(client).state.wf(),
            final(client).state.name == old(client).state.name,
            final(client).state.committee == old(client).state.committee,
            forall|d: u64|
                #[trigger] old(client).state.signed_effects.m().contains_key(d) ==> final(client).state.signed_effects.m().contains_key(d) && final(client).state.signed_effects.m()[d] == old(client).state.signed_effects.m()[d],
    {
        let rounds: usize = 4;
        let mut round: usize = 0;
        while round < rounds
            invariant
                client.state.wf(),
                client.state.name == old(client).state.name,
                client.state.committee == old(client).state.committee,
                clients_wf(a@),
                clients_wf(b@),
                forall|d: u64|
                    #[trigger] old(client).state.signed_effects.m().contains_key(d)
                        ==> client.state.signed_effects.m().contains_key(d)
                        && client.state.signed_effects.m()[d] == old(client).state.signed_effects.m()[d],
            decreases rounds - round,
        {
            Self::replay_from_sources(client, a);
            Self::replay_from_sources(client, b);
            round = round + 1;
        }
    }

    /// One replay round from one source list.
    fn replay_from_sources(
        client: &mut LocalAuthorityClient,
        sources: &Vec<(u64, LocalAuthorityClient)>,
    )
        requires
            old(client).state.wf(),
            clients_wf(sources@),
        ensures
            final(client).state.wf(),
            final(client).state.name == old(client).state.name,
            final(client).state.committee == old(client).state.committee,
            forall|d: u64|
                #[trigger] old(client).state.signed_effects.m().contains_key(d) ==> final(client).state.signed_effects.m().contains_key(d) && final(client).state.signed_effects.m()[d] == old(client).state.signed_effects.m()[d],
    {
        let n = sources.len();
        let mut i: usize = 0;
        while i < n
            invariant
                client.state.wf(),
                client.state.name == old(client).state.name,
                client.state.committee == old(client).state.committee,
                clients_wf(sources@),
                n == sources@.len(),
                i <= n,
                forall|d: u64|
                    #[trigger] old(client).state.signed_effects.m().contains_key(d)
                        ==> client.state.signed_effects.m().contains_key(d)
                        && client.state.signed_effects.m()[d] == old(client).state.signed_effects.m()[d],
            decreases n - i,
        {
            let src = &sources[i].1;
            proof {
                assert(sources@[i as int].1.state.wf());
            }
            let m = src.state.certificates.len();
            let mut j: usize = 0;
            while j < m
                invariant
                    client.state.wf(),
                    client.state.name == old(client).state.name,
                    client.state.committee == old(client).state.committee,
                    i < n,
                    n == sources@.len(),
                    src == &sources@[i as int].1,
                    sources@[i as int].1.state.wf(),
                    m == src.state.certificates.pairs().len(),
                    j <= m,
                    forall|d: u64|
                        #[trigger] old(client).state.signed_effects.m().contains_key(d)
                            ==> client.state.signed_effects.m().contains_key(d)
                            && client.state.signed_effects.m()[d] == old(client).state.signed_effects.m()[d],
                decreases m - j,
            {
                let cert = src.state.certificates.value_at(j).clone_certified();
                let digest = cert.digest();
                if !client.state.certificates.contains_key(digest) {
                    let confirmation = ConfirmationTransaction::new(cert);
                    let _ = client.state.handle_confirmation_transaction(&confirmation);
                }
                j = j + 1;
            }
            i = i + 1;
        }
    }

    /// Broadcast a transaction to every authority, collect their votes,
    /// and certify as soon as the accumulated weight reaches the quorum
    /// threshold. Success is owed whenever the authorities that would
    /// accept the transaction together weigh at least the quorum
    /// threshold; with less accepting weight the broadcast fails with
    /// `QuorumNotReached`.
    #[verifier::rlimit(100)]
    pub fn process_transaction(&mut self, transaction: &Transaction, _timeout_ms: u64) -> (r:
        Result<CertifiedTransaction, SuiError>)
        requires
            old(self).wf(),
        ensures
            final(self).wf(),
            final(self).committee == old(self).committee,
            r matches Ok(cert) ==> valid_certificate(cert@, final(self).committee)
                && cert@.transaction.digest() == transaction@.digest() && (forall|s: int|
                0 <= s < cert@.signatures.len() ==> exists|j: int|
                    0 <= j < old(self).authority_clients@.len() && (
                    #[trigger] cert@.signatures[s]).0 == old(self).authority_clients@[j].0 && old(
                        self,
                    ).authority_clients@[j].1.state.transaction_checks(transaction@) is None),
            transaction@.signature_ok() && accepting_weight(
                old(self).committee,
                old(self).authority_clients@,
                transaction@,
            ) >= quorum_threshold_spec(old(self).committee.spec_total_votes() as int) ==> r is Ok,
            r matches Err(e) ==> e == SuiError::QuorumNotReached || e
                == SuiError::InvalidSignature,
    {
        let ghost orig = self.authority_clients@;
        let ghost quorum = quorum_threshold_spec(old(self).committee.spec_total_votes() as int);
        let mut aggregator = match SignatureAggregator::try_new(
            transaction.clone_transaction(),
            &self.committee,
        ) {
            Ok(a) => a,
            Err(e) => {
                return Err(e);
            },
        };
        let mut done: Vec<(u64, LocalAuthorityClient)> = Vec::new();
        let mut cert_opt: Option<CertifiedTransaction> = None;
        let ghost mut k: int = 0;
        while self.authority_clients.len() > 0
            invariant
                old(self).wf(),
                self.committee == old(self).committee,
                orig == old(self).authority_clients@,
                quorum == quorum_threshold_spec(old(self).committee.spec_total_votes() as int),
                transaction@.signature_ok(),
                0 <= k <= orig.len(),
                self.authority_clients@ == orig.skip(k),
                done@.len() == k,
                forall|j: int|
                    0 <= j < k ==> (#[trigger] done@[j]).0 == orig[j].0 && done@[j].1.state.wf()
                        && done@[j].1.state.name == orig[j].1.state.name
                        && done@[j].1.state.committee == orig[j].1.state.committee,
                aggregator.wf(),
                aggregator.committee.spec_epoch() == self.committee.spec_epoch(),
                aggregator.committee.spec_total_votes() == self.committee.spec_total_votes(),
                aggregator.committee.weights() == self.committee.weights(),
                aggregator.transaction@ == transaction@,
                forall|s: int|
                    0 <= s < aggregator.signatures@.len() ==> exists|j: int|
                        0 <= j < k && (#[trigger] aggregator.signatures@[s]).0 == orig[j].0
                            && orig[j].1.state.transaction_checks(transaction@) is None,
                cert_opt is None ==> aggregator.weight as int == accepting_weight(
                    old(self).committee,
                    orig.take(k),
                    transaction@,
                ) && (aggregator.weight as int) < quorum,
                cert_opt matches Some(c) ==> valid_certificate(c@, aggregator.committee)
                    && c@.transaction.digest() == transaction@.digest() && c@.signatures
                    == aggregator.signatures@,
            decreases orig.len() - k,
        {
            let (name, mut client) = self.authority_clients.remove(0);
            proof {
                assert(self.authority_clients@ =~= orig.skip(k + 1));
                assert(name == orig[k].0 && client == orig[k].1);
                assert(orig[k].0 == orig[k].1.state.name);
                assert(orig[k].1.state.wf());
                assert(orig.take(k + 1).drop_last() =~= orig.take(k));
                assert(orig.take(k + 1).last() == orig[k]);
            }
            let ghost st0 = client.state;
            let ghost pre_sigs = aggregator.signatures@;
            if cert_opt.is_none() {
                match client.state.handle_transaction(transaction) {
                    Ok(resp) => {
                        proof {
                            assert(st0.transaction_checks(transaction@) is None);
                        }
                        match resp.signed_transaction {
                            Some(vote) => {
                                proof {
                                    assert(vote@.auth_signature.authority == st0.name);
                                    assert(crate::messages::signature_valid(
                                        vote@.auth_signature.signature,
                                        st0.name,
                                        transaction@.digest(),
                                    ));
                                    if exists|s: int|
                                        0 <= s < aggregator.signatures@.len() && (
                                        #[trigger] aggregator.signatures@[s]).0 == st0.name {
                                        let si = choose|s: int|
                                            0 <= s < aggregator.signatures@.len() && (
                                            #[trigger] aggregator.signatures@[s]).0 == st0.name;
                                        let j = choose|j: int|
                                            0 <= j < k && (
                                            #[trigger] aggregator.signatures@[si]).0 == orig[j].0;
                                        assert(orig[j].0 == orig[k].0);
                                        assert(false);
                                    }
                                }
                                match aggregator.append(
                                    vote.auth_signature.authority,
                                    vote.auth_signature.signature,
                                ) {
                                    Ok(Some(c)) => {
                                        cert_opt = Some(c);
                                    },
                                    _ => {},
                                }
                                proof {
                                    assert forall|s: int|
                                        0 <= s < aggregator.signatures@.len() implies exists|j: int|
                                        0 <= j < k + 1 && (
                                        #[trigger] aggregator.signatures@[s]).0 == orig[j].0
                                        && orig[j].1.state.transaction_checks(transaction@)
                                        is None by {
                                        if s < pre_sigs.len() {
                                            assert(aggregator.signatures@[s] == pre_sigs[s]);
                                            let j = choose|j: int|
                                                0 <= j < k && (#[trigger] pre_sigs[s]).0
                                                    == orig[j].0 && orig[j].1.state.transaction_checks(
                                                    transaction@,
                                                ) is None;
                                            assert(aggregator.signatures@[s].0 == orig[j].0);
                                        } else {
                                            assert(aggregator.signatures@[s].0 == orig[k].0);
                                            assert(orig[k].1.state.transaction_checks(transaction@)
                                                is None);
                                        }
                                    }
                                }
                            },
                            None => {
                                proof {
                                    assert(false);
                                }
                            },
                        }
                    },
                    Err(_) => {
                        proof {
                            assert(st0.transaction_checks(transaction@) is Some);
                        }
                    },
                }
            }
            done.push((name, client));
            proof {
                k = k + 1;
            }
        }
        proof {
            assert(orig.take(orig.len() as int) =~= orig);
            assert forall|i: int, j: int|
                0 <= i < j < done@.len() implies (#[trigger] done@[i]).0 != (
            #[trigger] done@[j]).0 by {
                assert(done@[i].0 == orig[i].0 && done@[j].0 == orig[j].0);
            }
            assert(clients_committees_match(old(self).committee, done@));
        }
        self.authority_clients = done;
        match cert_opt {
            Some(c) => {
                proof {
                    crate::messages::lemma_valid_certificate_congruent(
                        aggregator.committee,
                        self.committee,
                        c@,
                    );
                }
                Ok(c)
            },
            None => Err(SuiError::QuorumNotReached),
        }
    }

    /// Fold one authority's answered effects into the tallies: merge its
    /// weight into the entry carrying the same effects digest, or open a
    /// new entry. The per-digest bookkeeping (soundness against the
    /// processed clients, and the recorded weight's growth) is this
    /// helper's contract.
    #[verifier::rlimit(100)]
    #[verifier::spinoff_prover]
    fn record_answer(
        committee: &Committee,
        tallies: &mut Vec<(u64, u64, TransactionEffects)>,
        name: u64,
        ed: u64,
        effects: TransactionEffects,
        digest: Ghost<u64>,
        processed: Ghost<Seq<(u64, LocalAuthorityClient)>>,
        answered: Ghost<(u64, LocalAuthorityClient)>,
    )
        requires
            committee.wf(),
            ed == crate::messages::digest_of_effects(effects@),
            effects@.transaction_digest == digest@,
            names_distinct(processed@),
            answered@.0 == name,
            answered@.1.state.signed_effects.m().contains_key(digest@),
            crate::messages::digest_of_effects(
                answered@.1.state.signed_effects.m()[digest@]@.effects,
            ) == ed,
            forall|t: int, t2: int|
                0 <= t < t2 < old(tallies)@.len() ==> (#[trigger] old(tallies)@[t]).0 != (
                #[trigger] old(tallies)@[t2]).0,
            forall|t: int|
                0 <= t < old(tallies)@.len() ==> (#[trigger] old(tallies)@[t]).0
                    == crate::messages::digest_of_effects(old(tallies)@[t].2@) && old(tallies)@[t].2@.transaction_digest == digest@,
            forall|t: int|
                0 <= t < old(tallies)@.len() ==> (#[trigger] old(tallies)@[t]).1 as int
                    <= effects_weight(*committee, processed@, digest@, old(tallies)@[t].0),
        ensures
            forall|t: int, t2: int|
                0 <= t < t2 < final(tallies)@.len() ==> (#[trigger] final(tallies)@[t]).0 != (
                #[trigger] final(tallies)@[t2]).0,
            forall|t: int|
                0 <= t < final(tallies)@.len() ==> (#[trigger] final(tallies)@[t]).0
                    == crate::messages::digest_of_effects(final(tallies)@[t].2@) && final(tallies)@[t].2@.transaction_digest == digest@,
            forall|t: int|
                0 <= t < final(tallies)@.len() ==> (#[trigger] final(tallies)@[t]).1 as int
                    <= effects_weight(
                    *committee,
                    processed@.push(answered@),
                    digest@,
                    final(tallies)@[t].0,
                ),
            tally_weight(final(tallies)@, ed) >= tally_weight(old(tallies)@, ed)
                + committee.weight_of(name),
            forall|ed0: u64|
                ed0 != ed ==> #[trigger] tally_weight(final(tallies)@, ed0) == tally_weight(
                    old(tallies)@,
                    ed0,
                ),
    {
        let ghost pre_tallies = tallies@;
        let ghost pushed = processed@.push(answered@);
        proof {
            assert(pushed.drop_last() =~= processed@);
            assert(pushed.last() == answered@);
            assert(effects_weight(*committee, pushed, digest@, ed) == effects_weight(
                *committee,
                processed@,
                digest@,
                ed,
            ) + committee.weight_of(name));
        }
        let w = committee.weight(name);
        let mut at: Option<usize> = None;
        let tn = tallies.len();
        let mut t: usize = 0;
        while t < tn
            invariant
                tn == tallies@.len(),
                tallies@ == pre_tallies,
                t <= tn,
                match at {
                    Some(x) => x < tn && tallies@[x as int].0 == ed,
                    None => forall|q: int| 0 <= q < t ==> (#[trigger] tallies@[q]).0 != ed,
                },
            decreases tn - t,
        {
            if tallies[t].0 == ed {
                at = Some(t);
            }
            t = t + 1;
        }
        match at {
            Some(x) => {
                proof {
                    lemma_effects_weight_le_total(*committee, processed@, digest@, ed);
                    lemma_weight_le_total(*committee, name);
                }
                let merged = (ed, tallies[x].1 + w, tallies[x].2.clone_effects());
                let ghost mergedg = (merged.0, merged.1, merged.2);
                tallies.set(x, merged);
                proof {
                    assert(tallies@ == pre_tallies.update(x as int, mergedg));
                    assert forall|ed0: u64| #[trigger]
                        tally_weight(tallies@, ed0) == (if ed0 == ed {
                            mergedg.1 as int
                        } else {
                            tally_weight(pre_tallies, ed0)
                        }) by {
                        lemma_tally_weight_update(pre_tallies, x as int, mergedg, ed0);
                    }
                    assert(tally_weight(pre_tallies, ed) == pre_tallies[x as int].1 as int) by {
                        lemma_tally_weight_at(pre_tallies, x as int);
                    }
                    assert forall|t: int|
                        0 <= t < tallies@.len() implies (#[trigger] tallies@[t]).1 as int
                        <= effects_weight(*committee, pushed, digest@, tallies@[t].0) by {
                        if t == x {
                            assert(tallies@[t].0 == ed);
                        } else {
                            assert(tallies@[t] == pre_tallies[t]);
                        }
                    }
                }
            },
            None => {
                let ghost entry = (ed, w, effects);
                tallies.push((ed, w, effects));
                proof {
                    assert(tallies@.drop_last() =~= pre_tallies);
                    assert(tallies@.last() == entry);
                    lemma_tally_weight_absent(pre_tallies, ed);
                    assert(tally_weight(tallies@, ed) == w as int);
                    assert forall|ed0: u64|
                        ed0 != ed implies #[trigger] tally_weight(tallies@, ed0) == tally_weight(
                        pre_tallies,
                        ed0,
                    ) by {
                        assert(tally_weight(tallies@, ed0) == tally_weight(tallies@.drop_last(), ed0));
                    }
                    assert forall|t: int|
                        0 <= t < tallies@.len() implies (#[trigger] tallies@[t]).1 as int
                        <= effects_weight(*committee, pushed, digest@, tallies@[t].0) by {
                        if t < tallies@.len() - 1 {
                            assert(tallies@[t] == pre_tallies[t]);
                        } else {
                            assert(tallies@[t] == entry);
                            assert(effects_weight(*committee, processed@, digest@, ed) >= 0) by {
                                lemma_effects_weight_le_total(*committee, processed@, digest@, ed);
                            }
                        }
                    }
                }
            },
        }
    }

    /// Catch one authority up, submit the certificate to it, and fold
    /// its answer into the tallies. Under a valid certificate, an
    /// authority that already recorded effects for this digest always
    /// answers with exactly those effects, so its weight lands on their
    /// digest's tally.
    #[verifier::rlimit(100)]
    #[verifier::spinoff_prover]
    fn tally_one_client(
        committee: &Committee,
        certificate: &CertifiedTransaction,
        digest: u64,
        name: u64,
        client: LocalAuthorityClient,
        done: &Vec<(u64, LocalAuthorityClient)>,
        rest: &Vec<(u64, LocalAuthorityClient)>,
        tallies: &mut Vec<(u64, u64, TransactionEffects)>,
    ) -> (rc: LocalAuthorityClient)
        requires
            committee.wf(),
            client.state.wf(),
            client.state.committee.spec_epoch() == committee.spec_epoch(),
            client.state.committee.spec_total_votes() == committee.spec_total_votes(),
            client.state.committee.weights() == committee.weights(),
            clients_wf(done@),
            clients_wf(rest@),
            names_distinct(done@),
            digest == certificate@.transaction.digest(),
            tallies_wf(old(tallies)@, digest),
            tallies_sound(*committee, done@, digest, old(tallies)@),
        ensures
            rc.state.wf(),
            rc.state.name == client.state.name,
            rc.state.committee == client.state.committee,
            tallies_wf(final(tallies)@, digest),
            tallies_sound(*committee, done@.push((name, rc)), digest, final(tallies)@),
            forall|ed0: u64|
                valid_certificate(certificate@, *committee) ==> #[trigger] tally_weight(
                    final(tallies)@,
                    ed0,
                ) >= tally_weight(old(tallies)@, ed0) + (
                if client.state.signed_effects.m().contains_key(digest)
                    && crate::messages::digest_of_effects(
                    client.state.signed_effects.m()[digest]@.effects,
                ) == ed0 {
                    committee.weight_of(name) as int
                } else {
                    0
                }),
            forall|ed0: u64|
                valid_certificate(certificate@, *committee) ==> tally_weight(final(tallies)@, ed0)
                    >= tally_weight(old(tallies)@, ed0) + (
                if rc.state.signed_effects.m().contains_key(digest)
                    && crate::messages::digest_of_effects(
                    rc.state.signed_effects.m()[digest]@.effects,
                ) == ed0 {
                    #[trigger] committee.weight_of(name) as int
                } else {
                    0
                }),
    {
        let ghost st0 = client.state;
        let ghost pre_tallies = tallies@;
        let mut client = client;
        Self::replay_known_certificates(&mut client, done, rest);
        let ghost st1 = client.state;
        proof {
            if valid_certificate(certificate@, *committee) {
                crate::messages::lemma_valid_certificate_congruent(
                    *committee,
                    st1.committee,
                    certificate@,
                );
            }
        }
        let confirmation = ConfirmationTransaction {
            certificate: certificate.clone_certified(),
        };
        match client.state.handle_confirmation_transaction(&confirmation) {
            Ok(resp) => {
                match resp.signed_effects {
                    Some(se) => {
                        let ed = crate::messages::digest_of_effects_exec(&se.effects);
                        proof {
                            assert(client.state.signed_effects.m().contains_key(digest));
                            assert(client.state.signed_effects.m()[digest]@ == se@);
                            assert(se@.effects.transaction_digest == digest);
                            // An authority that already recorded effects for
                            // this digest answers with exactly those effects.
                            if st0.signed_effects.m().contains_key(digest) {
                                assert(st1.signed_effects.m().contains_key(digest)
                                    && st1.signed_effects.m()[digest]
                                    == st0.signed_effects.m()[digest]);
                                assert(se@ == st1.signed_effects.m()[digest]@);
                            }
                        }
                        Self::record_answer(
                            committee,
                            tallies,
                            name,
                            ed,
                            se.effects,
                            Ghost(digest),
                            Ghost(done@),
                            Ghost((name, client)),
                        );
                        proof {
                            assert forall|ed0: u64|
                                valid_certificate(certificate@, *committee) implies #[trigger]
                                tally_weight(tallies@, ed0) >= tally_weight(pre_tallies, ed0) + (
                                if st0.signed_effects.m().contains_key(digest)
                                    && crate::messages::digest_of_effects(
                                    st0.signed_effects.m()[digest]@.effects,
                                ) == ed0 {
                                    committee.weight_of(name) as int
                                } else {
                                    0
                                }) by {
                                if st0.signed_effects.m().contains_key(digest)
                                    && crate::messages::digest_of_effects(
                                    st0.signed_effects.m()[digest]@.effects,
                                ) == ed0 {
                                    assert(ed0 == ed);
                                } else {
                                    if ed0 == ed {
                                        lemma_weight_le_total(*committee, name);
                                    }
                                }
                            }
                        }
                    },
                    None => {
                        proof {
                            assert(false);
                        }
                    },
                }
            },
            Err(_) => {
                proof {
                    assert forall|t: int|
                        0 <= t < tallies@.len() implies (#[trigger] tallies@[t]).1 as int
                        <= effects_weight(*committee, done@.push((name, client)), digest, tallies@[t].0)
                        by {
                        assert(done@.push((name, client)).drop_last() =~= done@);
                    }
                    assert forall|ed0: u64|
                        valid_certificate(certificate@, *committee) implies #[trigger] tally_weight(
                        tallies@,
                        ed0,
                    ) >= tally_weight(pre_tallies, ed0) + (
                    if st0.signed_effects.m().contains_key(digest)
                        && crate::messages::digest_of_effects(
                        st0.signed_effects.m()[digest]@.effects,
                    ) == ed0 {
                        committee.weight_of(name) as int
                    } else {
                        0
                    }) by {
                        // Under a valid certificate only an authority without
                        // recorded effects for this digest can err.
                        assert(st1.confirmation_checks(certificate@) is Some);
                        assert(!st1.signed_effects.m().contains_key(digest));
                        assert(!st0.signed_effects.m().contains_key(digest));
                    }
                }
            },
        }
        client
    }

    /// Submit a certificate to every authority, catching a lagging
    /// authority up first by replaying certificates it misses, and
    /// return the effects once authorities of combined weight at least
    /// the quorum threshold report the same effects digest. Success is
    /// owed whenever a quorum already agrees on recorded effects for a
    /// valid certificate.
    #[verifier::rlimit(100)]
    #[verifier::spinoff_prover]
    pub fn process_certificate(&mut self, certificate: CertifiedTransaction, _timeout_ms: u64) -> (
        r: Result<TransactionEffects, SuiError>)
        requires
            old(self).wf(),
        ensures
            final(self).wf(),
            final(self).committee == old(self).committee,
            r matches Ok(e) ==> e@.transaction_digest == certificate@.transaction.digest()
                && effects_weight(
                old(self).committee,
                final(self).authority_clients@,
                certificate@.transaction.digest(),
                crate::messages::digest_of_effects(e@),
            ) >= quorum_threshold_spec(old(self).committee.spec_total_votes() as int),
            forall|ed: u64|
                valid_certificate(certificate@, old(self).committee) && effects_weight(
                    old(self).committee,
                    old(self).authority_clients@,
                    certificate@.transaction.digest(),
                    ed,
                ) >= quorum_threshold_spec(old(self).committee.spec_total_votes() as int)
                    ==> r is Ok,
            r matches Err(e) ==> e == SuiError::QuorumNotReached || e
                == SuiError::TooManyIncorrectAuthorities,
            valid_certificate(certificate@, old(self).committee) && r == Err::<
                TransactionEffects,
                SuiError,
            >(SuiError::TooManyIncorrectAuthorities) ==> forall|ed: u64|
                effects_weight(
                    old(self).committee,
                    final(self).authority_clients@,
                    certificate@.transaction.digest(),
                    ed,
                ) + (old(self).committee.spec_total_votes() - total_effects_weight(
                    old(self).committee,
                    final(self).authority_clients@,
                    certificate@.transaction.digest(),
                )) < quorum_threshold_spec(old(self).committee.spec_total_votes() as int),
            valid_certificate(certificate@, old(self).committee) && r == Err::<
                TransactionEffects,
                SuiError,
            >(SuiError::QuorumNotReached) ==> exists|ed: u64|
                #[trigger] effects_weight(
                    old(self).committee,
                    final(self).authority_clients@,
                    certificate@.transaction.digest(),
                    ed,
                ) + (old(self).committee.spec_total_votes() - total_effects_weight(
                    old(self).committee,
                    final(self).authority_clients@,
                    certificate@.transaction.digest(),
                )) >= quorum_threshold_spec(old(self).committee.spec_total_votes() as int),
    {
        let digest = certificate.digest();
        let ghost orig = self.authority_clients@;
        let ghost committee0 = self.committee;
        let ghost quorum = quorum_threshold_spec(old(self).committee.spec_total_votes() as int);
        let mut done: Vec<(u64, LocalAuthorityClient)> = Vec::new();
        // tallies: one entry per distinct effects digest, with the
        // accumulated weight and a witness copy of the effects.
        let mut tallies: Vec<(u64, u64, TransactionEffects)> = Vec::new();
        let mut answered: u64 = 0;
        let ghost agreed: u64 = choose|ed: u64|
            valid_certificate(certificate@, committee0) && effects_weight(
                committee0,
                orig,
                digest,
                ed,
            ) >= quorum;
        let ghost mut k: int = 0;
        while self.authority_clients.len() > 0
            invariant
                old(self).wf(),
                self.committee == old(self).committee,
                committee0 == old(self).committee,
                orig == old(self).authority_clients@,
                quorum == quorum_threshold_spec(old(self).committee.spec_total_votes() as int),
                digest == certificate@.transaction.digest(),
                0 <= k <= orig.len(),
                self.authority_clients@ == orig.skip(k),
                done@.len() == k,
                forall|j: int|
                    0 <= j < k ==> (#[trigger] done@[j]).0 == orig[j].0 && done@[j].1.state.wf()
                        && done@[j].1.state.name == orig[j].1.state.name
                        && done@[j].1.state.committee == orig[j].1.state.committee,
                tallies_wf(tallies@, digest),
                tallies_sound(committee0, done@, digest, tallies@),
                valid_certificate(certificate@, committee0) ==> effects_weight(
                    committee0,
                    orig.take(k),
                    digest,
                    agreed,
                ) <= tally_weight(tallies@, agreed),
                answered as int == total_effects_weight(committee0, done@, digest),
                valid_certificate(certificate@, committee0) ==> tallies_complete(
                    committee0,
                    done@,
                    digest,
                    tallies@,
                ),
            decreases orig.len() - k,
        {
            let (name, client) = self.authority_clients.remove(0);
            proof {
                assert(self.authority_clients@ =~= orig.skip(k + 1));
                assert(name == orig[k].0 && client == orig[k].1);
                assert(orig[k].1.state.wf());
                assert(orig.take(k + 1).drop_last() =~= orig.take(k));
                assert(orig.take(k + 1).last() == orig[k]);
                assert forall|i2: int, j2: int|
                    0 <= i2 < j2 < done@.len() implies (#[trigger] done@[i2]).0 != (
                #[trigger] done@[j2]).0 by {
                    assert(done@[i2].0 == orig[i2].0 && done@[j2].0 == orig[j2].0);
                }
            }
            let ghost st0 = client.state;
            let ghost pre_done = done@;
            let ghost pre_tallies = tallies@;
            let client = Self::tally_one_client(
                &self.committee,
                &certificate,
                digest,
                name,
                client,
                &done,
                &self.authority_clients,
                &mut tallies,
            );
            proof {
                if valid_certificate(certificate@, committee0) {
                    assert(tally_weight(tallies@, agreed) >= tally_weight(pre_tallies, agreed) + (
                    if st0.signed_effects.m().contains_key(digest)
                        && crate::messages::digest_of_effects(
                        st0.signed_effects.m()[digest]@.effects,
                    ) == agreed {
                        committee0.weight_of(orig[k].0) as int
                    } else {
                        0
                    }));
                }
            }
            let holds_effects = client.state.signed_effects.contains_key(digest);
            if holds_effects {
                proof {
                    assert forall|i2: int, j2: int|
                        0 <= i2 < j2 < pre_done.push((name, client)).len() implies (
                    #[trigger] pre_done.push((name, client))[i2]).0 != (#[trigger] pre_done.push(
                        (name, client),
                    )[j2]).0 by {
                        assert(pre_done.push((name, client))[i2].0 == orig[i2].0);
                        assert(pre_done.push((name, client))[j2].0 == orig[j2].0);
                    }
                    lemma_total_effects_weight_le_total(
                        committee0,
                        pre_done.push((name, client)),
                        digest,
                    );
                    assert(pre_done.push((name, client)).drop_last() =~= pre_done);
                }
                let w2 = self.committee.weight(name);
                answered = answered + w2;
            } else {
                proof {
                    assert(pre_done.push((name, client)).drop_last() =~= pre_done);
                }
            }
            proof {
                if valid_certificate(certificate@, committee0) {
                    assert(tallies_complete(
                        committee0,
                        pre_done.push((name, client)),
                        digest,
                        tallies@,
                    )) by {
                        assert forall|ed: u64|
                            #[trigger] effects_weight(
                            committee0,
                            pre_done.push((name, client)),
                            digest,
                            ed,
                        ) <= tally_weight(tallies@, ed) by {
                            assert(pre_done.push((name, client)).drop_last() =~= pre_done);
                            assert(effects_weight(committee0, pre_done, digest, ed)
                                <= tally_weight(pre_tallies, ed));
                            assert(tally_weight(tallies@, ed) >= tally_weight(pre_tallies, ed) + (
                            if client.state.signed_effects.m().contains_key(digest)
                                && crate::messages::digest_of_effects(
                                client.state.signed_effects.m()[digest]@.effects,
                            ) == ed {
                                committee0.weight_of(name) as int
                            } else {
                                0
                            }));
                        }
                    }
                }
            }
            done.push((name, client));
            proof {
                assert(done@ == pre_done.push((name, client)));
                k = k + 1;
            }
        }
        proof {
            assert(orig.take(orig.len() as int) =~= orig);
            assert forall|i2: int, j2: int|
                0 <= i2 < j2 < done@.len() implies (#[trigger] done@[i2]).0 != (
            #[trigger] done@[j2]).0 by {
                assert(done@[i2].0 == orig[i2].0 && done@[j2].0 == orig[j2].0);
            }
            assert(clients_committees_match(old(self).committee, done@));
        }
        self.authority_clients = done;
        // Find the heaviest agreeing weight.
        let quorum_exec = self.committee.quorum_threshold();
        let tn = tallies.len();
        let mut best: u64 = 0;
        let mut best_at: Option<usize> = None;
        let mut t: usize = 0;
        while t < tn
            invariant
                tn == tallies@.len(),
                t <= tn,
                forall|q: int| 0 <= q < t ==> (#[trigger] tallies@[q]).1 <= best,
                match best_at {
                    Some(x) => x < tn && tallies@[x as int].1 == best,
                    None => best == 0,
                },
            decreases tn - t,
        {
            if tallies[t].1 > best {
                best = tallies[t].1;
                best_at = Some(t);
            }
            t = t + 1;
        }
        proof {
            self.committee.voting_rights.lemma_view();
        }
        if best >= quorum_exec {
            match best_at {
                Some(x) => {
                    let e = tallies[x].2.clone_effects();
                    return Ok(e);
                },
                None => {
                    proof {
                        assert(false);
                    }
                },
            }
        }
        // No digest reached quorum; the pre-agreed premise cannot hold.
        proof {
            assert forall|ed: u64|
                !(valid_certificate(certificate@, committee0) && effects_weight(
                    committee0,
                    old(self).authority_clients@,
                    digest,
                    ed,
                ) >= quorum) by {
                if valid_certificate(certificate@, committee0) && effects_weight(
                    committee0,
                    old(self).authority_clients@,
                    digest,
                    ed,
                ) >= quorum {
                    assert(tally_weight(tallies@, agreed) >= quorum);
                    lemma_tally_weight_found(tallies@, agreed);
                    let q = choose|q: int|
                        0 <= q < tallies@.len() && (#[trigger] tallies@[q]).0 == agreed
                            && tallies@[q].1 as int == tally_weight(tallies@, agreed);
                    assert(tallies@[q].1 <= best);
                    assert(false);
                }
            }
        }
        // Distinguish byzantine disagreement from plain slowness: even
        // if all the silent weight sided with the heaviest answer, could
        // a quorum still form?
        proof {
            lemma_total_effects_weight_le_total(committee0, self.authority_clients@, digest);
            match best_at {
                Some(x) => {
                    lemma_effects_weight_le_total(
                        committee0,
                        self.authority_clients@,
                        digest,
                        tallies@[x as int].0,
                    );
                },
                None => {},
            }
        }
        let slack = self.committee.total_votes() - answered;
        if best > u64::MAX - slack || best + slack < quorum_exec {
            proof {
                assert(best + slack < quorum_exec);
                assert forall|ed: u64|
                    valid_certificate(certificate@, committee0) implies effects_weight(
                    committee0,
                    self.authority_clients@,
                    digest,
                    ed,
                ) + (committee0.spec_total_votes() - total_effects_weight(
                    committee0,
                    self.authority_clients@,
                    digest,
                )) < quorum by {
                    assert(effects_weight(committee0, self.authority_clients@, digest, ed)
                        <= tally_weight(tallies@, ed));
                    assert(tally_weight(tallies@, ed) <= best as int) by {
                        if tally_weight(tallies@, ed) > 0 {
                            lemma_tally_weight_found(tallies@, ed);
                            let q = choose|q: int|
                                0 <= q < tallies@.len() && (#[trigger] tallies@[q]).0 == ed
                                    && tallies@[q].1 as int == tally_weight(tallies@, ed);
                            assert(tallies@[q].1 <= best);
                        }
                    }
                }
            }
            Err(SuiError::TooManyIncorrectAuthorities)
        } else {
            proof {
                if valid_certificate(certificate@, committee0) {
                    match best_at {
                        Some(x) => {
                            let edw = tallies@[x as int].0;
                            assert(effects_weight(committee0, self.authority_clients@, digest, edw)
                                + (committee0.spec_total_votes() - total_effects_weight(
                                committee0,
                                self.authority_clients@,
                                digest,
                            )) >= quorum) by {
                                assert(tallies@[x as int].1 as int <= effects_weight(
                                    committee0,
                                    self.authority_clients@,
                                    digest,
                                    edw,
                                ));
                            }
                        },
                        None => {
                            lemma_effects_weight_le_total(
                                committee0,
                                self.authority_clients@,
                                digest,
                                0,
                            );
                            assert(effects_weight(committee0, self.authority_clients@, digest, 0)
                                + (committee0.spec_total_votes() - total_effects_weight(
                                committee0,
                                self.authority_clients@,
                                digest,
                            )) >= quorum);
                        },
                    }
                }
            }
            Err(SuiError::QuorumNotReached)
        }
    }

    /// Union of every
    /// Union of every (object reference, owner) pair any authority
    /// reports for the address, without deduplicating versions: stale
    /// and fresh references of one object may both appear. The second
    /// component counts authorities that failed to answer (none here).
    pub fn get_all_owned_objects(&self, address: SuiAddress, _timeout_ms: u64) -> (r: Result<
        (Vec<(ObjectRef, Owner)>, usize),
        SuiError,
    >)
        requires
            self.wf(),
        ensures
            r is Ok,
            ({
                let out = r->Ok_0.0;
                &&& (forall|i: int, j: int|
                    0 <= i < j < out@.len() ==> (#[trigger] out@[i]).0 != (#[trigger] out@[j]).0)
                &&& (forall|i: int|
                    0 <= i < out@.len() ==> held_by_some(
                        self.authority_clients@,
                        (#[trigger] out@[i]).0,
                        address,
                    ))
                &&& covers_owned(
                    self.authority_clients@,
                    out@,
                    address,
                    self.authority_clients@.len() as int,
                )
            }),
    {
        let mut out: Vec<(ObjectRef, Owner)> = Vec::new();
        let n = self.authority_clients.len();
        let mut i: usize = 0;
        while i < n
            invariant
                self.wf(),
                n == self.authority_clients@.len(),
                i <= n,
                forall|p: int, q: int|
                    0 <= p < q < out@.len() ==> (#[trigger] out@[p]).0 != (#[trigger] out@[q]).0,
                forall|p: int|
                    0 <= p < out@.len() ==> held_by_some(
                        self.authority_clients@,
                        (#[trigger] out@[p]).0,
                        address,
                    ),
                covers_owned(self.authority_clients@, out@, address, i as int),
            decreases n - i,
        {
            proof {
                assert(self.authority_clients@[i as int].1.state.wf());
            }
            let listed = self.authority_clients[i].1.state.account_objects(address);
            let ghost pre_client_out = out@;
            let m = listed.len();
            let mut j: usize = 0;
            while j < m
                invariant
                    self.wf(),
                    i < n,
                    n == self.authority_clients@.len(),
                    m == listed@.len(),
                    j <= m,
                    forall|p: int|
                        0 <= p < listed@.len() ==> self.authority_clients@[i as int].1.state.holds_ref(
                            (#[trigger] listed@[p]).0,
                        ) && self.authority_clients@[i as int].1.state.objects.m()[listed@[p].0.0]@.owner
                            == Owner::AddressOwner(address),
                    forall|p: int, q: int|
                        0 <= p < q < out@.len() ==> (#[trigger] out@[p]).0 != (
                        #[trigger] out@[q]).0,
                    forall|p: int|
                        0 <= p < out@.len() ==> held_by_some(
                            self.authority_clients@,
                            (#[trigger] out@[p]).0,
                            address,
                        ),
                    covers_owned(self.authority_clients@, out@, address, i as int),
                    pre_client_out.len() <= out@.len(),
                    forall|q: int| 0 <= q < pre_client_out.len() ==> out@[q] == pre_client_out[q],
                    forall|p: int| 0 <= p < j ==> has_ref(out@, (#[trigger] listed@[p]).0),
                decreases m - j,
            {
                let ghost pre_out = out@;
                let entry = listed[j];
                let mut present: bool = false;
                let on = out.len();
                let mut k: usize = 0;
                while k < on
                    invariant
                        on == out@.len(),
                        k <= on,
                        present <==> exists|q: int|
                            0 <= q < k && (#[trigger] out@[q]).0 == entry.0,
                    decreases on - k,
                {
                    let e = out[k];
                    if e.0.0 == entry.0.0 && e.0.1 == entry.0.1 && e.0.2 == entry.0.2 {
                        proof {
                            assert(out@[k as int].0 == entry.0);
                        }
                        present = true;
                    }
                    k = k + 1;
                }
                if !present {
                    proof {
                        if has_ref(out@, entry.0) {
                            let q = choose|q: int|
                                0 <= q < out@.len() && (#[trigger] out@[q]).0 == entry.0;
                            assert(false);
                        }
                        assert(held_by_some(self.authority_clients@, entry.0, address)) by {
                            assert(self.authority_clients@[i as int].1.state.holds_ref(
                                listed@[j as int].0,
                            ));
                        }
                    }
                    out.push(entry);
                }
                proof {
                    assert(forall|q: int| 0 <= q < pre_out.len() ==> out@[q] == pre_out[q]);
                    assert(has_ref(out@, entry.0)) by {
                        if present {
                            let q = choose|q: int|
                                0 <= q < pre_out.len() && (#[trigger] pre_out[q]).0 == entry.0;
                            assert(out@[q].0 == entry.0);
                        } else {
                            assert(out@[out@.len() - 1].0 == entry.0);
                        }
                    }
                    assert forall|p: int|
                        0 <= p < j + 1 implies has_ref(out@, (#[trigger] listed@[p]).0) by {
                        if p < j {
                            let q = choose|q: int|
                                0 <= q < pre_out.len() && (#[trigger] pre_out[q]).0 == listed@[p].0;
                            assert(out@[q].0 == listed@[p].0);
                        }
                    }
                    assert(covers_owned(self.authority_clients@, out@, address, i as int)) by {
                        assert forall|ci: int, p: int|
                            #![trigger self.authority_clients@[ci].1.state.objects.pairs()[p]]
                            0 <= ci < i && 0 <= p
                                < self.authority_clients@[ci].1.state.objects.pairs().len()
                                && self.authority_clients@[ci].1.state.objects.pairs()[p].1@.owner
                                == Owner::AddressOwner(address) implies has_ref(
                            out@,
                            crate::objects::object_ref(
                                self.authority_clients@[ci].1.state.objects.pairs()[p].1@,
                            ),
                        ) by {
                            let rr = crate::objects::object_ref(
                                self.authority_clients@[ci].1.state.objects.pairs()[p].1@,
                            );
                            assert(has_ref(pre_out, rr));
                            let q = choose|q: int|
                                0 <= q < pre_out.len() && (#[trigger] pre_out[q]).0 == rr;
                            assert(out@[q].0 == rr);
                        }
                    }
                }
                j = j + 1;
            }
            proof {
                // This client's full holdings were listed, so they are
                // covered now.
                assert forall|ci: int, p: int|
                    #![trigger self.authority_clients@[ci].1.state.objects.pairs()[p]]
                    0 <= ci < i + 1 && 0 <= p
                        < self.authority_clients@[ci].1.state.objects.pairs().len()
                        && self.authority_clients@[ci].1.state.objects.pairs()[p].1@.owner
                        == Owner::AddressOwner(address) implies has_ref(
                    out@,
                    crate::objects::object_ref(
                        self.authority_clients@[ci].1.state.objects.pairs()[p].1@,
                    ),
                ) by {
                    if ci == i {
                        let st = self.authority_clients@[i as int].1.state;
                        assert(has_ref(listed@, crate::objects::object_ref(
                            st.objects.pairs()[p].1@,
                        )));
                        let lq = choose|lq: int|
                            0 <= lq < listed@.len() && (#[trigger] listed@[lq]).0
                                == crate::objects::object_ref(st.objects.pairs()[p].1@);
                        assert(has_ref(out@, listed@[lq].0));
                    }
                }
            }
            i = i + 1;
        }
        Ok((out, 0))
    }

    /// Highest version any authority holds for the object, zero where
    /// none holds it.
    pub fn get_latest_sequence_number(&self, id: ObjectId) -> (r: SequenceNumber)
        requires
            self.wf(),
        ensures
            forall|i: int|
                0 <= i < self.authority_clients@.len() ==> ((
                #[trigger] self.authority_clients@[i]).1.state.objects.m().contains_key(id)
                    ==> self.authority_clients@[i].1.state.objects.m()[id]@.version <= r),
            r == 0 || exists|i: int|
                0 <= i < self.authority_clients@.len() && (
                #[trigger] self.authority_clients@[i]).1.state.objects.m().contains_key(id)
                    && self.authority_clients@[i].1.state.objects.m()[id]@.version == r,
    {
        let n = self.authority_clients.len();
        let mut best: u64 = 0;
        let mut i: usize = 0;
        while i < n
            invariant
                self.wf(),
                n == self.authority_clients@.len(),
                i <= n,
                forall|p: int|
                    0 <= p < i ==> ((
                    #[trigger] self.authority_clients@[p]).1.state.objects.m().contains_key(id)
                        ==> self.authority_clients@[p].1.state.objects.m()[id]@.version <= best),
                best == 0 || exists|p: int|
                    0 <= p < i && (#[trigger] self.authority_clients@[p]).1.state.objects.m().contains_key(
                        id,
                    ) && self.authority_clients@[p].1.state.objects.m()[id]@.version == best,
            decreases n - i,
        {
            proof {
                assert(self.authority_clients@[i as int].1.state.wf());
            }
            match self.authority_clients[i].1.state.objects.get(id) {
                Some(o) => {
                    let v = o.version();
                    if v > best {
                        best = v;
                    }
                },
                None => {},
            }
            i = i + 1;
        }
        best
    }

    /// Catch every authority up on every certificate its peers have
    /// executed, then list the address's objects keeping only the
    /// highest version per object id: after the catch-up, at most one
    /// entry per live object remains.
    pub fn sync_all_owned_objects(&mut self, address: SuiAddress, timeout_ms: u64) -> (r: Result<
        (Vec<(ObjectRef, Owner)>, usize),
        SuiError,
    >)
        requires
            old(self).wf(),
        ensures
            final(self).wf(),
            final(self).committee == old(self).committee,
            r is Ok,
            ({
                let out = r->Ok_0.0;
                &&& (forall|i: int, j: int|
                    0 <= i < j < out@.len() ==> (#[trigger] out@[i]).0.0 != (
                    #[trigger] out@[j]).0.0)
                &&& (forall|i: int|
                    0 <= i < out@.len() ==> held_by_some(
                        final(self).authority_clients@,
                        (#[trigger] out@[i]).0,
                        address,
                    ))
                &&& (forall|ci: int, p: int|
                    #![trigger final(self).authority_clients@[ci].1.state.objects.pairs()[p]]
                    0 <= ci < final(self).authority_clients@.len() && 0 <= p < final(self).authority_clients@[ci].1.state.objects.pairs().len() && final(self).authority_clients@[ci].1.state.objects.pairs()[p].1@.owner
                        == Owner::AddressOwner(address) ==> covered_by_id(
                        out@,
                        crate::objects::object_ref(
                            final(self).authority_clients@[ci].1.state.objects.pairs()[p].1@,
                        ),
                    ))
            }),
    {
        // Catch-up pass: every client replays what its peers executed.
        let ghost orig = self.authority_clients@;
        let mut done: Vec<(u64, LocalAuthorityClient)> = Vec::new();
        let ghost mut k: int = 0;
        while self.authority_clients.len() > 0
            invariant
                self.committee == old(self).committee,
                old(self).wf(),
                orig == old(self).authority_clients@,
                0 <= k <= orig.len(),
                self.authority_clients@ == orig.skip(k),
                done@.len() == k,
                forall|j: int|
                    0 <= j < k ==> (#[trigger] done@[j]).0 == orig[j].0 && done@[j].1.state.wf()
                        && done@[j].1.state.name == orig[j].1.state.name
                        && done@[j].1.state.committee == orig[j].1.state.committee,
            decreases orig.len() - k,
        {
            let (name, mut client) = self.authority_clients.remove(0);
            proof {
                assert(self.authority_clients@ =~= orig.skip(k + 1));
                assert(name == orig[k].0 && client == orig[k].1);
                assert(orig[k].1.state.wf());
            }
            Self::replay_known_certificates(&mut client, &done, &self.authority_clients);
            done.push((name, client));
            proof {
                k = k + 1;
            }
        }
        proof {
            assert forall|i2: int, j2: int|
                0 <= i2 < j2 < done@.len() implies (#[trigger] done@[i2]).0 != (
            #[trigger] done@[j2]).0 by {
                assert(done@[i2].0 == orig[i2].0 && done@[j2].0 == orig[j2].0);
            }
            assert(clients_committees_match(old(self).committee, done@));
        }
        self.authority_clients = done;
        // Final listing, deduplicated to the freshest version per id.
        let (all, failed) = match self.get_all_owned_objects(address, timeout_ms) {
            Ok(p) => p,
            Err(e) => {
                return Err(e);
            },
        };
        let mut out: Vec<(ObjectRef, Owner)> = Vec::new();
        let n = all.len();
        let mut i: usize = 0;
        while i < n
            invariant
                self.wf(),
                n == all@.len(),
                i <= n,
                forall|p: int|
                    0 <= p < all@.len() ==> held_by_some(
                        self.authority_clients@,
                        (#[trigger] all@[p]).0,
                        address,
                    ),
                forall|p: int, q: int|
                    0 <= p < q < out@.len() ==> (#[trigger] out@[p]).0.0 != (
                    #[trigger] out@[q]).0.0,
                forall|p: int|
                    0 <= p < out@.len() ==> held_by_some(
                        self.authority_clients@,
                        (#[trigger] out@[p]).0,
                        address,
                    ),
                forall|p: int| 0 <= p < i ==> covered_by_id(out@, (#[trigger] all@[p]).0),
            decreases n - i,
        {
            let ghost pre_out = out@;
            let entry = all[i];
            let mut at: Option<usize> = None;
            let on = out.len();
            let mut k: usize = 0;
            while k < on
                invariant
                    on == out@.len(),
                    k <= on,
                    match at {
                        Some(x) => x < on && out@[x as int].0.0 == entry.0.0,
                        None => forall|q: int| 0 <= q < k ==> (#[trigger] out@[q]).0.0 != entry.0.0,
                    },
                decreases on - k,
            {
                if out[k].0.0 == entry.0.0 {
                    at = Some(k);
                }
                k = k + 1;
            }
            match at {
                Some(x) => {
                    if out[x].0.1 < entry.0.1 {
                        out.set(x, entry);
                        proof {
                            assert(out@ == pre_out.update(x as int, entry));
                            assert(forall|p: int, q: int|
                                0 <= p < q < out@.len() ==> (#[trigger] out@[p]).0.0 != (
                                #[trigger] out@[q]).0.0);
                        }
                    }
                    proof {
                        assert(out@[x as int].0.0 == entry.0.0 && out@[x as int].0.1 >= entry.0.1);
                    }
                },
                None => {
                    out.push(entry);
                    proof {
                        assert(out@[out@.len() - 1].0.0 == entry.0.0);
                    }
                },
            }
            proof {
                assert forall|p: int|
                    0 <= p < i + 1 implies covered_by_id(out@, (#[trigger] all@[p]).0) by {
                    if p < i {
                        let q = choose|q: int|
                            0 <= q < pre_out.len() && (#[trigger] pre_out[q]).0.0 == all@[p].0.0
                                && pre_out[q].0.1 >= all@[p].0.1;
                        assert(out@[q].0.0 == all@[p].0.0 && out@[q].0.1 >= pre_out[q].0.1);
                    } else {
                        assert(covered_by_id(out@, entry.0));
                    }
                }
            }
            i = i + 1;
        }
        proof {
            // Every owned object of every authority was listed by the
            // union, hence covered here at its version or later.
            assert forall|ci: int, p: int|
                #![trigger self.authority_clients@[ci].1.state.objects.pairs()[p]]
                0 <= ci < self.authority_clients@.len() && 0 <= p
                    < self.authority_clients@[ci].1.state.objects.pairs().len()
                    && self.authority_clients@[ci].1.state.objects.pairs()[p].1@.owner
                    == Owner::AddressOwner(address) implies covered_by_id(
                out@,
                crate::objects::object_ref(
                    self.authority_clients@[ci].1.state.objects.pairs()[p].1@,
                ),
            ) by {
                let rr = crate::objects::object_ref(
                    self.authority_clients@[ci].1.state.objects.pairs()[p].1@,
                );
                assert(has_ref(all@, rr));
                let q = choose|q: int| 0 <= q < all@.len() && (#[trigger] all@[q]).0 == rr;
                assert(covered_by_id(out@, all@[q].0));
            }
        }
        Ok((out, failed))
    }
}

/// One list of genesis objects for each of `authority_count` authorities.
pub fn authority_genesis_objects(
    authority_count: usize,
    objects_per_authority: Vec<Object>,
) -> (r: Vec<Vec<Object>>)
    ensures
        r@.len() == authority_count,
        forall|i: int, j: int|
            0 <= i < r@.len() && 0 <= j < (#[trigger] r@[i])@.len() ==> (#[trigger] r@[i]@[j])@
                == objects_per_authority@[j]@,
        forall|i: int|
            0 <= i < r@.len() ==> (#[trigger] r@[i])@.len() == objects_per_authority@.len(),
{
    let mut out: Vec<Vec<Object>> = Vec::new();
    let mut a: usize = 0;
    while a < authority_count
        invariant
            a <= authority_count,
            out@.len() == a,
            forall|i: int, j: int|
                0 <= i < out@.len() && 0 <= j < (#[trigger] out@[i])@.len() ==> (
                #[trigger] out@[i]@[j])@ == objects_per_authority@[j]@,
            forall|i: int|
                0 <= i < out@.len() ==> (#[trigger] out@[i])@.len()
                    == objects_per_authority@.len(),
        decreases authority_count - a,
    {
        let mut copy: Vec<Object> = Vec::new();
        let m = objects_per_authority.len();
        let mut j: usize = 0;
        while j < m
            invariant
                m == objects_per_authority@.len(),
                j <= m,
                copy@.len() == j,
                forall|q: int|
                    0 <= q < copy@.len() ==> (#[trigger] copy@[q])@ == objects_per_authority@[q]@,
            decreases m - j,
        {
            copy.push(objects_per_authority[j].clone_object());
            j = j + 1;
        }
        out.push(copy);
        a = a + 1;
    }
    out
}

/// A committee of `genesis_objects.len()` authorities with weight one
/// each, under epoch zero, and one local authority per member: member
/// `i` is named `i + 1` and seeded with the `i`-th genesis object list.
pub fn init_local_authorities(genesis_objects: Vec<Vec<Object>>) -> (r: AuthorityAggregator)
    requires
        genesis_objects@.len() > 0,
        genesis_objects@.len() < 0x1000_0000,
        forall|i: int, j: int|
            0 <= i < genesis_objects@.len() && 0 <= j < (#[trigger] genesis_objects@[i])@.len()
                ==> (#[trigger] genesis_objects@[i]@[j])@.version < u64::MAX,
    ensures
        r.wf(),
        r.committee.spec_epoch() == 0,
        r.committee.spec_total_votes() == genesis_objects@.len(),
        r.committee.names().len() == genesis_objects@.len(),
        forall|i: int|
            0 <= i < r.committee.names().len() ==> (#[trigger] r.committee.names()[i]) == i + 1,
        forall|i: int|
            0 <= i < genesis_objects@.len() ==> #[trigger] r.committee.weights().contains_key(
                (i + 1) as u64,
            ) && r.committee.weights()[(i + 1) as u64] == 1,
        r.authority_clients@.len() == genesis_objects@.len(),
        forall|i: int|
            0 <= i < r.authority_clients@.len() ==> (#[trigger] r.authority_clients@[i]).0 == i
                + 1,
{
    let n = genesis_objects.len();
    let mut rights: VecMap<u64> = VecMap::new();
    let mut i: usize = 0;
    while i < n
        invariant
            n < 0x1000_0000,
            i <= n,
            rights.wf(),
            rights.pairs().len() == i,
            forall|p: int| 0 <= p < rights.pairs().len() ==> (#[trigger] rights.pairs()[p]).0 == p + 1,
            forall|p: int| 0 <= p < rights.pairs().len() ==> (#[trigger] rights.pairs()[p]).1 == 1,
            crate::committee::sum_weights(rights.pairs()) == i,
        decreases n - i,
    {
        let name: u64 = (i as u64) + 1;
        proof {
            rights.lemma_view();
            if rights.m().contains_key(name) {
                let p = choose|p: int|
                    0 <= p < rights.keys_seq().len() && rights.keys_seq()[p] == name;
                assert(rights.pairs()[p].0 == name);
                assert(false);
            }
        }
        let ghost prev = rights.pairs();
        rights.insert(name, 1);
        proof {
            assert(rights.pairs().drop_last() =~= prev);
            assert(rights.pairs().last().1 == 1);
            assert(crate::vecmap::sum_pair_values(rights.pairs()) == i + 1);
        }
        i = i + 1;
    }
    let ghost final_rights = rights;
    let committee = match Committee::new(0, rights) {
        Ok(c) => c,
        Err(_) => {
            proof {
                assert(false);
            }
            crate::test_utils::singleton_committee(1)
        },
    };
    proof {
        final_rights.lemma_view();
        assert forall|p: int|
            0 <= p < genesis_objects@.len() implies #[trigger] committee.weights().contains_key(
            (p + 1) as u64,
        ) && committee.weights()[(p + 1) as u64] == 1 by {
            assert(final_rights.pairs()[p].0 == p + 1 && final_rights.pairs()[p].1 == 1);
            assert(final_rights.m().contains_key(final_rights.pairs()[p].0));
            assert(final_rights.m()[final_rights.pairs()[p].0] == final_rights.pairs()[p].1);
        }
        assert forall|p: int|
            0 <= p < committee.names().len() implies (#[trigger] committee.names()[p]) == p
            + 1 by {
            assert(final_rights.keys_seq()[p] == final_rights.pairs()[p].0);
        }
    }
    let mut clients: Vec<(u64, LocalAuthorityClient)> = Vec::new();
    let mut objects = genesis_objects;
    let mut a: usize = 0;
    while a < n
        invariant
            committee.wf(),
            committee.spec_epoch() == 0,
            n < 0x1000_0000,
            a <= n,
            objects@.len() == n - a,
            forall|i2: int, j: int|
                0 <= i2 < objects@.len() && 0 <= j < (#[trigger] objects@[i2])@.len() ==> (
                #[trigger] objects@[i2]@[j])@.version < u64::MAX,
            clients@.len() == a,
            forall|j: int|
                0 <= j < a ==> (#[trigger] clients@[j]).0 == j + 1 && clients@[j].1.state.wf()
                    && clients@[j].1.state.name == j + 1,
            forall|j: int|
                0 <= j < a ==> {
                    let c = (#[trigger] clients@[j]).1.state.committee;
                    &&& c.spec_epoch() == committee.spec_epoch()
                    &&& c.spec_total_votes() == committee.spec_total_votes()
                    &&& c.weights() == committee.weights()
                },
        decreases n - a,
    {
        let ghost pre_objects = objects@;
        let set = objects.remove(0);
        proof {
            assert(objects@ =~= pre_objects.skip(1));
            assert(set == pre_objects[0]);
            assert forall|i2: int, j: int|
                0 <= i2 < objects@.len() && 0 <= j < (#[trigger] objects@[i2])@.len() implies (
            #[trigger] objects@[i2]@[j])@.version < u64::MAX by {
                assert(objects@[i2] == pre_objects[i2 + 1]);
            }
        }
        let name: u64 = (a as u64) + 1;
        let client = LocalAuthorityClient::new_with_objects(committee.clone(), name, set);
        clients.push((name, client));
        a = a + 1;
    }
    proof {
        assert forall|i2: int, j2: int|
            0 <= i2 < j2 < clients@.len() implies (#[trigger] clients@[i2]).0 != (
        #[trigger] clients@[j2]).0 by {}
    }
    AuthorityAggregator { committee, authority_clients: clients }
}

} // verus!
