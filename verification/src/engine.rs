use crate::errors::CoreError;
use crate::record::{CustodyVault, Identity, StateRecord};
use vstd::prelude::*;

verus! {

/// Authority check: the default gating rule for mutating operations.
/// Succeeds exactly when the acting identity equals the record's
/// authority; otherwise fails with `Unauthorized`.
pub fn authorize(record: &StateRecord, actor: Identity) -> (r: Result<(), CoreError>)
    ensures
        r is Ok <==> actor == record.spec_authority(),
        r matches Err(e) ==> e == CoreError::Unauthorized,
{
    if actor == record.authority() {
        Ok(())
    } else {
        Err(CoreError::Unauthorized)
    }
}

/// Whether a movement of `amount` from `source` to `destination` by
/// `actor` is admissible: the actor holds the debit authority, the two
/// vaults share a mint, the source covers the amount, and the credited
/// balance stays representable.
pub open spec fn spec_move_ok(
    source: CustodyVault,
    destination: CustodyVault,
    amount: u64,
    actor: Identity,
    debit_authority: Identity,
) -> bool {
    &&& actor == debit_authority
    &&& source.mint == destination.mint
    &&& source.balance >= amount
    &&& destination.balance + amount <= u64::MAX
}

/// The transfer engine: move `amount` from `source` to `destination` in
/// one atomic, all-or-nothing step. `debit_authority` is the identity
/// that the source vault's owner requires for a debit (for a user-owned
/// source, the user's own identity).
///
/// On success both balances change and nothing else does; on any failure
/// both vaults are exactly as before the call. Value is moved, never
/// created or destroyed: the two balances always have the same sum after
/// the call as before it.
pub fn move_value(
    source: &mut CustodyVault,
    destination: &mut CustodyVault,
    amount: u64,
    actor: Identity,
    debit_authority: Identity,
) -> (r: Result<(), CoreError>)
    ensures
        r is Ok <==> spec_move_ok(*old(source), *old(destination), amount, actor, debit_authority),
        r is Ok ==> final(source).balance == old(source).balance - amount,
        r is Ok ==> final(destination).balance == old(destination).balance + amount,
        final(source).mint == old(source).mint && final(source).owner == old(source).owner,
        final(destination).mint == old(destination).mint && final(destination).owner == old(
            destination,
        ).owner,
        final(source).balance + final(destination).balance == old(source).balance + old(
            destination,
        ).balance,
        r is Err ==> *final(source) == *old(source) && *final(destination) == *old(destination),
        r matches Err(e) ==> (e == CoreError::Unauthorized <==> actor != debit_authority),
        r matches Err(e) ==> (e == CoreError::MintMismatch <==> actor == debit_authority && old(
            source,
        ).mint != old(destination).mint),
        r matches Err(e) ==> (e == CoreError::InsufficientBalance <==> actor == debit_authority
            && old(source).mint == old(destination).mint && old(source).balance < amount),
        r matches Err(e) ==> (e == CoreError::Overflow <==> actor == debit_authority && old(
            source,
        ).mint == old(destination).mint && old(source).balance >= amount && old(
            destination,
        ).balance + amount > u64::MAX),
{
    if actor != debit_authority {
        return Err(CoreError::Unauthorized);
    }
    if source.mint != destination.mint {
        return Err(CoreError::MintMismatch);
    }
    if source.balance < amount {
        return Err(CoreError::InsufficientBalance);
    }
    if destination.balance > u64::MAX - amount {
        return Err(CoreError::Overflow);
    }
    source.balance = source.balance - amount;
    destination.balance = destination.balance + amount;
    Ok(())
}

/// One committed movement over a ledger of vault balances, in
/// mathematical form: `amount` leaves the balance at index `from` and
/// arrives at the balance at index `to`.
pub struct Movement {
    pub from: int,
    pub to: int,
    pub amount: int,
}

/// Whether a movement is admissible on a ledger of balances: distinct
/// in-range indices, a non-negative amount covered by the source, and a
/// credited balance that stays representable. These are exactly the
/// conditions under which `move_value` succeeds on the two vaults.
pub open spec fn movement_ok(balances: Seq<u64>, m: Movement) -> bool {
    &&& 0 <= m.from < balances.len()
    &&& 0 <= m.to < balances.len()
    &&& m.from != m.to
    &&& 0 <= m.amount <= balances[m.from]
    &&& balances[m.to] + m.amount <= u64::MAX
}

/// The ledger of balances after a movement commits.
pub open spec fn apply_movement(balances: Seq<u64>, m: Movement) -> Seq<u64> {
    balances.update(m.from, (balances[m.from] - m.amount) as u64).update(
        m.to,
        (balances[m.to] + m.amount) as u64,
    )
}

/// Whether every movement of a trace is admissible in the state reached
/// by the movements before it.
pub open spec fn trace_ok(balances: Seq<u64>, trace: Seq<Movement>) -> bool
    decreases trace.len(),
{
    trace.len() == 0 || (movement_ok(balances, trace[0]) && trace_ok(
        apply_movement(balances, trace[0]),
        trace.subrange(1, trace.len() as int),
    ))
}

/// The ledger of balances after a trace of movements commits in order.
pub open spec fn apply_trace(balances: Seq<u64>, trace: Seq<Movement>) -> Seq<u64>
    decreases trace.len(),
{
    if trace.len() == 0 {
        balances
    } else {
        apply_trace(apply_movement(balances, trace[0]), trace.subrange(1, trace.len() as int))
    }
}

/// The sum of all balances of a ledger.
pub open spec fn sum_balances(balances: Seq<u64>) -> int
    decreases balances.len(),
{
    if balances.len() == 0 {
        0
    } else {
        balances[0] + sum_balances(balances.subrange(1, balances.len() as int))
    }
}

/// Replacing one balance changes the sum by exactly the difference.
proof fn lemma_sum_update(balances: Seq<u64>, i: int, v: u64)
    requires
        0 <= i < balances.len(),
    ensures
        sum_balances(balances.update(i, v)) == sum_balances(balances) - balances[i] + v,
    decreases balances.len(),
{
    let tail = balances.subrange(1, balances.len() as int);
    if i == 0 {
        assert(balances.update(0, v).subrange(1, balances.len() as int) =~= tail);
    } else {
        assert(balances.update(i, v).subrange(1, balances.len() as int) =~= tail.update(i - 1, v));
        lemma_sum_update(tail, i - 1, v);
    }
}

/// One admissible movement leaves the sum of all balances unchanged.
pub proof fn lemma_movement_conserves_sum(balances: Seq<u64>, m: Movement)
    requires
        movement_ok(balances, m),
    ensures
        sum_balances(apply_movement(balances, m)) == sum_balances(balances),
{
    let debited = balances.update(m.from, (balances[m.from] - m.amount) as u64);
    lemma_sum_update(balances, m.from, (balances[m.from] - m.amount) as u64);
    lemma_sum_update(debited, m.to, (debited[m.to] + m.amount) as u64);
}

/// A successful `move_value` call is one admissible movement on any
/// ledger of balances that lists the two vaults: the conditions of
/// `spec_move_ok` make the movement admissible, and the new ledger is
/// the old one with exactly the source and destination balances
/// replaced by their post-transfer values.
pub proof fn lemma_move_value_is_movement(
    source: CustodyVault,
    destination: CustodyVault,
    amount: u64,
    actor: Identity,
    debit_authority: Identity,
    balances: Seq<u64>,
    m: Movement,
)
    requires
        spec_move_ok(source, destination, amount, actor, debit_authority),
        0 <= m.from < balances.len(),
        0 <= m.to < balances.len(),
        m.from != m.to,
        balances[m.from] == source.balance,
        balances[m.to] == destination.balance,
        m.amount == amount,
    ensures
        movement_ok(balances, m),
        apply_movement(balances, m) == balances.update(
            m.from,
            (source.balance - amount) as u64,
        ).update(m.to, (destination.balance + amount) as u64),
{
}

/// Conservation: any sequence of admissible movements leaves the sum of
/// balances across all vaults of the ledger invariant — value is moved,
/// never created or destroyed.
pub proof fn lemma_trace_conserves_sum(balances: Seq<u64>, trace: Seq<Movement>)
    requires
        trace_ok(balances, trace),
    ensures
        sum_balances(apply_trace(balances, trace)) == sum_balances(balances),
    decreases trace.len(),
{
    if trace.len() > 0 {
        lemma_movement_conserves_sum(balances, trace[0]);
        lemma_trace_conserves_sum(
            apply_movement(balances, trace[0]),
            trace.subrange(1, trace.len() as int),
        );
    }
}

} // verus!
