use vstd::prelude::*;

verus! {

/// Why an attached deposit was refused.
#[derive(Clone, Copy, Debug, PartialEq, Eq, Structural)]
pub enum DepositError {
    /// The deposit a call needs does not fit in 128 bits.
    Overflow,
    /// Less was attached than the call needs.
    Insufficient { required: u128 },
}

/// What funding an amount pool costs: every unit of the pool, plus the
/// storage the call used.
pub fn required_deposit(amount: u128, capacity: u64, storage_bytes: u64, byte_cost: u128) -> (r: Result<
    u128,
    DepositError,
>)
    ensures
        r is Ok <==> amount * capacity + storage_bytes * byte_cost <= u128::MAX,
        r is Ok ==> r->Ok_0 == amount * capacity + storage_bytes * byte_cost,
        r is Err ==> r == Err::<u128, _>(DepositError::Overflow),
{
    let rewards = match amount.checked_mul(capacity as u128) {
        Some(v) => v,
        None => {
            assert(amount * capacity + storage_bytes * byte_cost > u128::MAX) by (nonlinear_arith)
                requires
                    amount * capacity > u128::MAX,
                    storage_bytes * byte_cost >= 0,
            ;
            return Err(DepositError::Overflow);
        },
    };
    let storage = match byte_cost.checked_mul(storage_bytes as u128) {
        Some(v) => v,
        None => {
            assert(amount * capacity + storage_bytes * byte_cost > u128::MAX) by (nonlinear_arith)
                requires
                    byte_cost * storage_bytes > u128::MAX,
                    amount * capacity >= 0,
            ;
            return Err(DepositError::Overflow);
        },
    };
    assert(storage == storage_bytes * byte_cost) by (nonlinear_arith)
        requires
            storage == byte_cost * storage_bytes,
    ;
    match rewards.checked_add(storage) {
        Some(v) => Ok(v),
        None => Err(DepositError::Overflow),
    }
}

/// What goes back to the caller of `attached` after `required` is kept:
/// nothing when it is one unit or less, and a refusal when less than
/// `required` was attached.
pub fn refund_after(attached: u128, required: u128) -> (r: Result<Option<u128>, DepositError>)
    ensures
        attached < required ==> r == Err::<Option<u128>, _>(DepositError::Insufficient { required }),
        attached >= required && attached - required > 1 ==> r == Ok::<_, DepositError>(Some((attached - required) as u128)),
        attached >= required && attached - required <= 1 ==> r == Ok::<_, DepositError>(None::<u128>),
{
    if attached < required {
        return Err(DepositError::Insufficient { required });
    }
    let refund = attached - required;
    if refund > 1 {
        Ok(Some(refund))
    } else {
        Ok(None)
    }
}

} // verus!
