use vstd::prelude::*;

use crate::error::LedgerError;
use crate::money::Money;

verus! {

/// Type code of a player donation: a member paying into the corporation.
pub const PLAYER_DONATION: i32 = 10;

/// Type code of an office rental fee.
pub const OFFICE_RENTAL_FEE: i32 = 13;

/// Type code of an agent mission reward.
pub const AGENT_MISSION_REWARD: i32 = 33;

/// Type code of an agent mission time bonus reward.
pub const AGENT_MISSION_TIME_BONUS_REWARD: i32 = 34;

/// Type code of a corporation account withdrawal.
pub const CORPORATION_ACCOUNT_WITHDRAWAL: i32 = 37;

/// Type code of a corporation dividend payment.
pub const CORPORATION_DIVIDEND_PAYMENT: i32 = 38;

/// Type code of bounty prizes.
pub const BOUNTY_PRIZES: i32 = 85;

/// Type code of an exploration (project discovery) reward.
pub const PROJECT_DISCOVERY_REWARD: i32 = 125;

/// Type code of an escrow transfer.
pub const ESS_ESCROW_TRANSFER: i32 = 155;

/// Type code of daily goal payouts.
pub const DAILY_GOAL_PAYOUTS: i32 = 174;

/// One row of the corporation's wallet journal, immutable once ingested.
#[derive(Debug, Clone)]
pub struct LedgerEntry {
    /// Unique, non-decreasing identifier.
    pub id: i64,
    /// Unix time in seconds.
    pub date: i64,
    /// Transaction-type code.
    pub ref_type: i32,
    pub description: String,
    pub amount: Option<Money>,
    pub balance: Option<Money>,
    pub context_id: Option<i64>,
    pub context_id_type: Option<i32>,
    pub reason: Option<String>,
    pub first_party_id: Option<i64>,
    pub second_party_id: Option<i64>,
    pub tax: Option<Money>,
    pub tax_receiver_id: Option<i64>,
}

/// The actor a ledger entry is attributed to.
#[derive(Debug, Clone, Copy, PartialEq, Eq, Structural)]
pub enum ActorRef {
    Individual(i64),
    Organization(i64),
}

/// What an id denotes in the actor directory.
#[derive(Debug, Clone, Copy, PartialEq, Eq, Structural)]
pub enum Identity {
    Individual(i64),
    Organization(i64),
    Unknown,
}

impl Identity {
    /// The actor an identity denotes; `None` when unknown.
    pub open spec fn actor(self) -> Option<ActorRef> {
        match self {
            Identity::Individual(id) => Some(ActorRef::Individual(id)),
            Identity::Organization(id) => Some(ActorRef::Organization(id)),
            Identity::Unknown => None,
        }
    }
}

/// The two registries that an id is looked up against: individuals first, then
/// organizations.
pub struct ActorDirectory {
    pub individuals: Vec<i64>,
    pub organizations: Vec<i64>,
}

/// What `id` denotes, given the individual and organization registries.
pub open spec fn resolve_in(individuals: Seq<i64>, organizations: Seq<i64>, id: i64) -> Identity {
    if individuals.contains(id) {
        Identity::Individual(id)
    } else if organizations.contains(id) {
        Identity::Organization(id)
    } else {
        Identity::Unknown
    }
}

fn contains_id(v: &Vec<i64>, id: i64) -> (r: bool)
    ensures
        r == v@.contains(id),
{
    let mut i: usize = 0;
    while i < v.len()
        invariant
            i <= v@.len(),
            forall|j: int| 0 <= j < i ==> v@[j] != id,
        decreases v@.len() - i,
    {
        if v[i] == id {
            assert(v@[i as int] == id);
            return true;
        }
        i = i + 1;
    }
    false
}

impl ActorDirectory {
    pub open spec fn resolve_spec(&self, id: i64) -> Identity {
        resolve_in(self.individuals@, self.organizations@, id)
    }

    /// What `id` denotes: an individual, else an organization, else unknown.
    pub fn resolve(&self, id: i64) -> (r: Identity)
        ensures
            r == self.resolve_spec(id),
    {
        if contains_id(&self.individuals, id) {
            Identity::Individual(id)
        } else if contains_id(&self.organizations, id) {
            Identity::Organization(id)
        } else {
            Identity::Unknown
        }
    }
}

/// The five shapes of attribution rule that the type codes map to.
#[derive(Debug, Clone, Copy, PartialEq, Eq, Structural)]
pub enum AttributionRule {
    /// The first party (the donor), whatever the sign: an organization when the
    /// directory knows it as one, else an individual.
    FirstParty,
    /// The organization is the first party when the amount is non-negative,
    /// else the second party.
    SignedOrganization,
    /// The second party is the individual.
    SecondParty,
    /// The party that the sign selects (first when non-negative) is resolved
    /// through the directory.
    ResolveSignedParty,
    /// The second party is resolved through the directory.
    ResolveSecondParty,
}

/// The closed table from transaction-type code to attribution rule.
pub open spec fn rule_for(code: i32) -> AttributionRule {
    if code == PLAYER_DONATION {
        AttributionRule::FirstParty
    } else if code == OFFICE_RENTAL_FEE {
        AttributionRule::SignedOrganization
    } else if code == AGENT_MISSION_REWARD || code == AGENT_MISSION_TIME_BONUS_REWARD || code
        == BOUNTY_PRIZES || code == PROJECT_DISCOVERY_REWARD || code == ESS_ESCROW_TRANSFER || code
        == DAILY_GOAL_PAYOUTS {
        AttributionRule::SecondParty
    } else if code == CORPORATION_ACCOUNT_WITHDRAWAL {
        AttributionRule::ResolveSignedParty
    } else {
        AttributionRule::ResolveSecondParty
    }
}

/// The attribution rule of a transaction-type code; codes without a rule of their
/// own (dividends among them) resolve the second party.
pub fn attribution_rule(code: i32) -> (r: AttributionRule)
    ensures
        r == rule_for(code),
{
    if code == PLAYER_DONATION {
        AttributionRule::FirstParty
    } else if code == OFFICE_RENTAL_FEE {
        AttributionRule::SignedOrganization
    } else if code == AGENT_MISSION_REWARD || code == AGENT_MISSION_TIME_BONUS_REWARD || code
        == BOUNTY_PRIZES || code == PROJECT_DISCOVERY_REWARD || code == ESS_ESCROW_TRANSFER || code
        == DAILY_GOAL_PAYOUTS {
        AttributionRule::SecondParty
    } else if code == CORPORATION_ACCOUNT_WITHDRAWAL {
        AttributionRule::ResolveSignedParty
    } else {
        AttributionRule::ResolveSecondParty
    }
}

/// An entry's attributed actor (if any) and its signed amount.
#[derive(Debug, Clone, Copy, PartialEq, Eq, Structural)]
pub struct Attribution {
    pub actor: Option<ActorRef>,
    pub amount: Money,
}

/// The party that the amount's sign selects: the first when non-negative.
pub open spec fn signed_party(e: LedgerEntry, amount: Money) -> Option<i64> {
    if amount.cents >= 0 {
        e.first_party_id
    } else {
        e.second_party_id
    }
}

/// The actor a donor id denotes: an organization when the directory knows the id
/// only as one; otherwise the individual (a donor the directory does not know yet
/// is taken to be a person, so that the payment stays attributed).
pub open spec fn donor_actor(individuals: Seq<i64>, organizations: Seq<i64>, id: i64) -> ActorRef {
    match resolve_in(individuals, organizations, id) {
        Identity::Organization(o) => ActorRef::Organization(o),
        _ => ActorRef::Individual(id),
    }
}

/// The classification of an entry under the rule of its type code. Every rule
/// reads one party; when the entry lacks it, the entry cannot be classified.
pub open spec fn classify_spec(
    e: LedgerEntry,
    individuals: Seq<i64>,
    organizations: Seq<i64>,
) -> Result<Attribution, LedgerError> {
    match e.amount {
        None => Err(LedgerError::MissingAmount),
        Some(amount) => match rule_for(e.ref_type) {
            AttributionRule::FirstParty => match e.first_party_id {
                None => Err(LedgerError::MissingParty),
                Some(id) => Ok(
                    Attribution {
                        actor: Some(donor_actor(individuals, organizations, id)),
                        amount,
                    },
                ),
            },
            AttributionRule::SignedOrganization => match signed_party(e, amount) {
                None => Err(LedgerError::MissingParty),
                Some(id) => Ok(Attribution { actor: Some(ActorRef::Organization(id)), amount }),
            },
            AttributionRule::SecondParty => match e.second_party_id {
                None => Err(LedgerError::MissingParty),
                Some(id) => Ok(Attribution { actor: Some(ActorRef::Individual(id)), amount }),
            },
            AttributionRule::ResolveSignedParty => match signed_party(e, amount) {
                None => Err(LedgerError::MissingParty),
                Some(id) => Ok(
                    Attribution { actor: resolve_in(individuals, organizations, id).actor(), amount },
                ),
            },
            AttributionRule::ResolveSecondParty => match e.second_party_id {
                None => Err(LedgerError::MissingParty),
                Some(id) => Ok(
                    Attribution { actor: resolve_in(individuals, organizations, id).actor(), amount },
                ),
            },
        },
    }
}

fn identity_actor(i: Identity) -> (r: Option<ActorRef>)
    ensures
        r == i.actor(),
{
    match i {
        Identity::Individual(id) => Some(ActorRef::Individual(id)),
        Identity::Organization(id) => Some(ActorRef::Organization(id)),
        Identity::Unknown => None,
    }
}

/// Attributes an entry to the actor its type code's rule names, with its signed
/// amount. Under the rules that resolve an id through the directory, an id it does
/// not know leaves the entry unattributed; a donor it does not know counts as an
/// individual. A party that the rule reads but the entry lacks is an error.
pub fn classify(entry: &LedgerEntry, directory: &ActorDirectory) -> (r: Result<
    Attribution,
    LedgerError,
>)
    ensures
        r == classify_spec(*entry, directory.individuals@, directory.organizations@),
{
    let amount = match entry.amount {
        Some(a) => a,
        None => {
            return Err(LedgerError::MissingAmount);
        },
    };
    let signed = if amount.cents >= 0 {
        entry.first_party_id
    } else {
        entry.second_party_id
    };
    let actor = match attribution_rule(entry.ref_type) {
        AttributionRule::FirstParty => match entry.first_party_id {
            Some(id) => match directory.resolve(id) {
                Identity::Organization(o) => Some(ActorRef::Organization(o)),
                _ => Some(ActorRef::Individual(id)),
            },
            None => {
                return Err(LedgerError::MissingParty);
            },
        },
        AttributionRule::SignedOrganization => match signed {
            Some(id) => Some(ActorRef::Organization(id)),
            None => {
                return Err(LedgerError::MissingParty);
            },
        },
        AttributionRule::SecondParty => match entry.second_party_id {
            Some(id) => Some(ActorRef::Individual(id)),
            None => {
                return Err(LedgerError::MissingParty);
            },
        },
        AttributionRule::ResolveSignedParty => match signed {
            Some(id) => identity_actor(directory.resolve(id)),
            None => {
                return Err(LedgerError::MissingParty);
            },
        },
        AttributionRule::ResolveSecondParty => match entry.second_party_id {
            Some(id) => identity_actor(directory.resolve(id)),
            None => {
                return Err(LedgerError::MissingParty);
            },
        },
    };
    Ok(Attribution { actor, amount })
}

} // verus!

verus! {

/// A donation is attributed to its donor (the first party), whatever the sign of
/// its amount: as an organization when the directory knows the donor only as one,
/// as an individual otherwise.
pub proof fn lemma_donation_attributed_to_donor(
    e: LedgerEntry,
    individuals: Seq<i64>,
    organizations: Seq<i64>,
    donor: i64,
    amount: Money,
)
    requires
        e.ref_type == PLAYER_DONATION,
        e.first_party_id == Some(donor),
        e.amount == Some(amount),
    ensures
        classify_spec(e, individuals, organizations) == Ok::<Attribution, LedgerError>(
            Attribution {
                actor: Some(
                    if !individuals.contains(donor) && organizations.contains(donor) {
                        ActorRef::Organization(donor)
                    } else {
                        ActorRef::Individual(donor)
                    },
                ),
                amount,
            },
        ),
{
}

/// An office rental fee is attributed, as an organization, to the first party
/// when its amount is non-negative and to the second party when it is negative.
pub proof fn lemma_office_rental_follows_sign(
    e: LedgerEntry,
    individuals: Seq<i64>,
    organizations: Seq<i64>,
    first: i64,
    second: i64,
    amount: Money,
)
    requires
        e.ref_type == OFFICE_RENTAL_FEE,
        e.first_party_id == Some(first),
        e.second_party_id == Some(second),
        e.amount == Some(amount),
    ensures
        classify_spec(e, individuals, organizations) == Ok::<Attribution, LedgerError>(
            Attribution {
                actor: Some(
                    ActorRef::Organization(
                        if amount.cents >= 0 {
                            first
                        } else {
                            second
                        },
                    ),
                ),
                amount,
            },
        ),
{
}

} // verus!

verus! {

/// Whether `id` is the first or the second party of some entry.
pub open spec fn is_party(entries: Seq<LedgerEntry>, id: i64) -> bool {
    exists|i: int|
        0 <= i < entries.len() && (entries[i].first_party_id == Some(id)
            || entries[i].second_party_id == Some(id))
}

/// Whether a run of ids is strictly ascending.
pub open spec fn strictly_ascending(s: Seq<i64>) -> bool {
    forall|i: int, j: int| 0 <= i < j < s.len() ==> s[i] < s[j]
}

fn insert_sorted(v: &mut Vec<i64>, x: i64)
    requires
        strictly_ascending(old(v)@),
    ensures
        strictly_ascending(final(v)@),
        forall|y: i64| final(v)@.contains(y) <==> (old(v)@.contains(y) || y == x),
{
    let n = v.len();
    let mut i: usize = 0;
    while i < n && v[i] < x
        invariant
            i <= n == v@.len(),
            v@ == old(v)@,
            forall|j: int| 0 <= j < i ==> v@[j] < x,
        decreases n - i,
    {
        i = i + 1;
    }
    if i < n && v[i] == x {
        assert(v@[i as int] == x);
        return;
    }
    let ghost pre = v@;
    assert(pre == old(v)@);
    v.insert(i, x);
    assert(forall|j: int| i <= j < pre.len() ==> pre[j] > x) by {
        assert forall|j: int| i <= j < pre.len() implies pre[j] > x by {
            assert(pre[i as int] >= x);
            assert(pre[i as int] != x);
            if i < j {
                assert(pre[i as int] < pre[j]);
            }
        }
    }
    assert forall|y: i64| v@.contains(y) <==> (pre.contains(y) || y == x) by {
        if v@.contains(y) {
            let k = choose|k: int| 0 <= k < v@.len() && v@[k] == y;
            if k < i {
                assert(pre[k] == y);
            } else if k > i {
                assert(pre[k - 1] == y);
            }
        }
        if pre.contains(y) {
            let k = choose|k: int| 0 <= k < pre.len() && pre[k] == y;
            if k < i {
                assert(v@[k] == y);
            } else {
                assert(v@[k + 1] == y);
            }
        }
        if y == x {
            assert(v@[i as int] == x);
        }
    }
    assert(forall|y: i64| v@.contains(y) <==> (old(v)@.contains(y) || y == x));
}

/// All ids that appear as first or second party of some entry, less the excluded
/// ones, each once and in ascending order.
pub fn party_ids(entries: &Vec<LedgerEntry>, excluded: &Vec<i64>) -> (r: Vec<i64>)
    ensures
        strictly_ascending(r@),
        forall|id: i64| r@.contains(id) <==> (is_party(entries@, id) && !excluded@.contains(id)),
{
    let mut ids: Vec<i64> = Vec::new();
    let n = entries.len();
    let mut i: usize = 0;
    while i < n
        invariant
            i <= n == entries@.len(),
            strictly_ascending(ids@),
            forall|id: i64|
                ids@.contains(id) <==> (is_party(entries@.subrange(0, i as int), id)
                    && !excluded@.contains(id)),
        decreases n - i,
    {
        let ghost before = ids@;
        let e = &entries[i];
        if let Some(p) = e.first_party_id {
            if !contains_id(excluded, p) {
                insert_sorted(&mut ids, p);
            }
        }
        if let Some(p) = e.second_party_id {
            if !contains_id(excluded, p) {
                insert_sorted(&mut ids, p);
            }
        }
        let ghost next = entries@.subrange(0, i + 1);
        assert forall|id: i64|
            ids@.contains(id) <==> (is_party(next, id) && !excluded@.contains(id)) by {
            if is_party(entries@.subrange(0, i as int), id) {
                let k = choose|k: int|
                    0 <= k < i && (entries@.subrange(0, i as int)[k].first_party_id == Some(id)
                        || entries@.subrange(0, i as int)[k].second_party_id == Some(id));
                assert(next[k] == entries@.subrange(0, i as int)[k]);
            }
            if is_party(next, id) {
                let k = choose|k: int|
                    0 <= k < i + 1 && (next[k].first_party_id == Some(id) || next[k].second_party_id
                        == Some(id));
                if k < i {
                    assert(entries@.subrange(0, i as int)[k] == next[k]);
                } else {
                    assert(next[k] == entries@[i as int]);
                }
            }
            if e.first_party_id == Some(id) || e.second_party_id == Some(id) {
                assert(next[i as int] == entries@[i as int]);
            }
        }
        i = i + 1;
    }
    assert(entries@.subrange(0, n as int) =~= entries@);
    ids
}

/// The ids among `ids` that the directory knows neither as an individual nor as
/// an organization, in the order given.
pub open spec fn unknown_among(ids: Seq<i64>, individuals: Seq<i64>, organizations: Seq<i64>) -> Seq<
    i64,
>
    decreases ids.len(),
{
    if ids.len() == 0 {
        Seq::empty()
    } else {
        let rest = unknown_among(ids.drop_last(), individuals, organizations);
        if resolve_in(individuals, organizations, ids.last()) == Identity::Unknown {
            rest.push(ids.last())
        } else {
            rest
        }
    }
}

/// The ids that the directory does not know, in order: those still to be looked
/// up at the source.
pub fn unknown_ids(ids: &Vec<i64>, directory: &ActorDirectory) -> (r: Vec<i64>)
    ensures
        r@ == unknown_among(ids@, directory.individuals@, directory.organizations@),
{
    let mut out: Vec<i64> = Vec::new();
    let n = ids.len();
    let mut i: usize = 0;
    while i < n
        invariant
            i <= n == ids@.len(),
            out@ == unknown_among(
                ids@.subrange(0, i as int),
                directory.individuals@,
                directory.organizations@,
            ),
        decreases n - i,
    {
        assert(ids@.subrange(0, i + 1).drop_last() =~= ids@.subrange(0, i as int));
        let id = ids[i];
        match directory.resolve(id) {
            Identity::Unknown => {
                out.push(id);
            },
            _ => {},
        }
        i = i + 1;
    }
    assert(ids@.subrange(0, n as int) =~= ids@);
    out
}

} // verus!
