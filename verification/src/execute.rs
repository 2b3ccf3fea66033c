//! The life of an account: an action is authorized, held against the
//! policy, and only then consumes a nonce.

use crate::account::{AttestaAccount, AttestaAccountView};
use crate::auth::{AuthorizationProof, AuthorizationProofView};
use crate::errors::CryptoError;
use crate::policies::{decode_policy, Policy, PolicyType, PolicyView};
use vstd::prelude::*;

verus! {

/// What the policy of an account says to an action.
#[derive(Debug, Clone, Copy, PartialEq, Eq, Structural)]
pub enum PolicyResult {
    /// The action may proceed.
    Allowed,
    /// The policy forbids the action.
    Denied,
    /// The action needs the approval of further signers.
    RequiresApproval,
}

/// Why an action was not executed.
#[derive(Debug, Clone, Copy, PartialEq, Eq)]
pub enum ExecuteError {
    /// The proof did not authorize the action.
    Unauthorized(CryptoError),
    /// The policy of the account forbids the action.
    PolicyDenied,
}

/// What `policy` says to an action of `amount` at time `now`: a
/// multi-signature policy asks for the approval of its signers, every
/// other policy allows what it permits and denies the rest.
pub open spec fn policy_decision(policy: PolicyView, amount: u64, now: i64) -> PolicyResult {
    if policy.policy_type == PolicyType::MultiSig {
        PolicyResult::RequiresApproval
    } else if policy.permits(amount, now) {
        PolicyResult::Allowed
    } else {
        PolicyResult::Denied
    }
}

/// What the policy bytes of an account say to an action: no bytes allow
/// everything, bytes that are no policy deny everything.
pub open spec fn account_policy_decision(policy: Seq<u8>, amount: u64, now: i64) -> PolicyResult {
    if policy.len() == 0 {
        PolicyResult::Allowed
    } else {
        match decode_policy(policy) {
            Err(_) => PolicyResult::Denied,
            Ok(decoded) => policy_decision(decoded, amount, now),
        }
    }
}

/// What executing an action returns.
pub open spec fn execution_outcome(
    account: AttestaAccountView,
    proof: AuthorizationProofView,
    amount: u64,
    now: i64,
) -> Result<PolicyResult, ExecuteError> {
    match proof.outcome(account) {
        Err(e) => Err(ExecuteError::Unauthorized(e)),
        Ok(_) => match account_policy_decision(account.policy, amount, now) {
            PolicyResult::Allowed => Ok(PolicyResult::Allowed),
            PolicyResult::RequiresApproval => Ok(PolicyResult::RequiresApproval),
            PolicyResult::Denied => Err(ExecuteError::PolicyDenied),
        },
    }
}

/// The account that executing an action leaves behind: advanced where the
/// action was allowed, untouched in every other case.
pub open spec fn account_after(
    account: AttestaAccountView,
    proof: AuthorizationProofView,
    amount: u64,
    now: i64,
) -> AttestaAccountView {
    if execution_outcome(account, proof, amount, now) == Ok::<PolicyResult, ExecuteError>(
        PolicyResult::Allowed,
    ) {
        account.advanced(now)
    } else {
        account
    }
}

/// The time of an action: the reading of the clock, and the time at which
/// the account last changed where the clock gave no reading.
pub fn action_time(reading: Option<i64>, last_update: i64) -> (now: i64)
    ensures
        now == (match reading {
            Some(time) => time,
            None => last_update,
        }),
{
    match reading {
        Some(time) => time,
        None => last_update,
    }
}

/// What `policy` says to an action of `amount` at time `now`.
pub fn decide(policy: &Policy, amount: u64, now: i64) -> (decision: PolicyResult)
    ensures
        decision == policy_decision(policy@, amount, now),
{
    match policy.policy_type {
        PolicyType::MultiSig => PolicyResult::RequiresApproval,
        _ => if policy.evaluate(amount, now) {
            PolicyResult::Allowed
        } else {
            PolicyResult::Denied
        },
    }
}

/// What the policy of `account` says to an action of `amount` at time
/// `now`.
pub fn evaluate_policy(account: &AttestaAccount, amount: u64, now: i64) -> (decision: PolicyResult)
    ensures
        decision == account_policy_decision(account@.policy, amount, now),
{
    if account.policy.len() == 0 {
        return PolicyResult::Allowed;
    }
    match Policy::from_bytes(account.policy.as_slice()) {
        Err(_) => PolicyResult::Denied,
        Ok(policy) => decide(&policy, amount, now),
    }
}

/// Commits the decision of the policy: an allowed action consumes a
/// nonce, every other decision leaves the account as it is.
pub fn commit(account: &mut AttestaAccount, decision: PolicyResult, now: i64) -> (outcome: Result<
    PolicyResult,
    ExecuteError,
>)
    ensures
        decision == PolicyResult::Allowed ==> outcome == Ok::<PolicyResult, ExecuteError>(
            PolicyResult::Allowed,
        ) && final(account)@ == old(account)@.advanced(now),
        decision == PolicyResult::RequiresApproval ==> outcome == Ok::<PolicyResult, ExecuteError>(
            PolicyResult::RequiresApproval,
        ) && *final(account) == *old(account),
        decision == PolicyResult::Denied ==> outcome == Err::<PolicyResult, ExecuteError>(
            ExecuteError::PolicyDenied,
        ) && *final(account) == *old(account),
{
    match decision {
        PolicyResult::Allowed => {
            account.increment_nonce(now);
            Ok(PolicyResult::Allowed)
        },
        PolicyResult::RequiresApproval => Ok(PolicyResult::RequiresApproval),
        PolicyResult::Denied => Err(ExecuteError::PolicyDenied),
    }
}

/// Executes an action of `amount` at time `now` on behalf of `account`.
///
/// The proof is verified, then the policy is consulted. Only an allowed
/// action changes the account: it consumes one nonce and refreshes the time
/// of the last update. A failed proof, a denial and a request for approval
/// leave the account exactly as it was.
pub fn execute_transaction(
    account: &mut AttestaAccount,
    proof: &AuthorizationProof,
    amount: u64,
    now: i64,
) -> (outcome: Result<PolicyResult, ExecuteError>)
    ensures
        outcome == execution_outcome(old(account)@, proof@, amount, now),
        final(account)@ == account_after(old(account)@, proof@, amount, now),
        !(outcome == Ok::<PolicyResult, ExecuteError>(PolicyResult::Allowed)) ==> *final(account)
            == *old(account),
        final(account).nonce >= old(account).nonce,
{
    match proof.verify(account) {
        Err(e) => {
            return Err(ExecuteError::Unauthorized(e));
        },
        Ok(_) => {},
    }
    let decision = evaluate_policy(account, amount, now);
    commit(account, decision, now)
}

/// Whether the policy of `account` lets an instruction of the program
/// `program_id` pass. No policy restricts programs: every instruction
/// passes.
pub fn validate_instruction(
    account: &AttestaAccount,
    program_id: &[u8; 32],
    instruction_data: &[u8],
) -> (outcome: Result<(), ExecuteError>)
    ensures
        outcome == Ok::<(), ExecuteError>(()),
{
    Ok(())
}

/// An executed proof whose nonce was the next counter value is a replay
/// from then on: the account has consumed exactly that nonce.
pub proof fn lemma_executed_proof_is_replay(
    account: AttestaAccountView,
    proof: AuthorizationProofView,
    amount: u64,
    now: i64,
)
    requires
        execution_outcome(account, proof, amount, now) == Ok::<PolicyResult, ExecuteError>(
            PolicyResult::Allowed,
        ),
        proof.nonce == account.nonce + 1,
    ensures
        account_after(account, proof, amount, now).nonce == proof.nonce,
        proof.outcome(account_after(account, proof, amount, now)) == Err::<(), CryptoError>(
            CryptoError::ReplayAttack,
        ),
{
}

/// Whatever an execution returns, the counter of the account does not go
/// back, and it moves only where the action was allowed.
pub proof fn lemma_execution_keeps_counter_order(
    account: AttestaAccountView,
    proof: AuthorizationProofView,
    amount: u64,
    now: i64,
)
    ensures
        account_after(account, proof, amount, now).nonce >= account.nonce,
        execution_outcome(account, proof, amount, now) != Ok::<PolicyResult, ExecuteError>(
            PolicyResult::Allowed,
        ) ==> account_after(account, proof, amount, now) == account,
        execution_outcome(account, proof, amount, now) == Ok::<PolicyResult, ExecuteError>(
            PolicyResult::Allowed,
        ) ==> account_after(account, proof, amount, now).nonce == account.nonce + 1,
{
}

} // verus!
