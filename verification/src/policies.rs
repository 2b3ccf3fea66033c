//! Policies: the rules that decide whether an authorized action may proceed.

use crate::codec::{
    field_bytes, i64_from_le, i64_le_bytes, lemma_field_round_trip, lemma_i64_round_trip,
    lemma_take_field_is_field,
    lemma_u64_round_trip, put_bytes, put_field, put_i64, put_u64, read_field, read_i64, read_u64,
    take_field, u64_from_le, u64_le_bytes, CodecError,
};
use vstd::prelude::*;

verus! {

/// The kinds of policy an account can carry.
#[derive(Debug, Clone, Copy, PartialEq, Eq, Structural)]
pub enum PolicyType {
    /// No restriction.
    Open,
    /// A ceiling on the amount of one action.
    SpendingLimit,
    /// A ceiling on the amount of one action, with the time at which a daily
    /// total would start anew.
    DailyLimit,
    /// A set of signers who must all approve.
    MultiSig,
    /// Nothing may happen before a set time.
    TimeLocked,
}

impl PolicyType {
    /// The byte that stands for this kind in a serialized policy.
    pub open spec fn tag(self) -> u8 {
        match self {
            PolicyType::Open => 0,
            PolicyType::SpendingLimit => 1,
            PolicyType::DailyLimit => 2,
            PolicyType::MultiSig => 3,
            PolicyType::TimeLocked => 4,
        }
    }

    /// The kind that the byte `tag` stands for, if any.
    pub open spec fn of_tag(tag: u8) -> Option<PolicyType> {
        if tag == 0 {
            Some(PolicyType::Open)
        } else if tag == 1 {
            Some(PolicyType::SpendingLimit)
        } else if tag == 2 {
            Some(PolicyType::DailyLimit)
        } else if tag == 3 {
            Some(PolicyType::MultiSig)
        } else if tag == 4 {
            Some(PolicyType::TimeLocked)
        } else {
            None
        }
    }
}

/// A policy as a mathematical value: its kind and its configuration bytes.
pub struct PolicyView {
    pub policy_type: PolicyType,
    pub config: Seq<u8>,
}

impl PolicyView {
    /// Whether the policy permits an action of `amount` at time `now`.
    ///
    /// A spending or daily limit permits amounts up to the `u64` in the first
    /// eight configuration bytes; a time lock permits from the `i64` in the
    /// first eight bytes on. A configuration too short for its kind permits
    /// nothing. A multi-signature policy only records its signers and leaves
    /// counting them to the caller.
    pub open spec fn permits(self, amount: u64, now: i64) -> bool {
        match self.policy_type {
            PolicyType::Open => true,
            PolicyType::SpendingLimit => self.config.len() >= 8 && amount <= u64_from_le(
                self.config,
            ),
            PolicyType::DailyLimit => self.config.len() >= 16 && amount <= u64_from_le(
                self.config,
            ),
            PolicyType::TimeLocked => self.config.len() >= 8 && now >= i64_from_le(self.config),
            PolicyType::MultiSig => true,
        }
    }

    /// The serialized form: the kind's tag, then the configuration behind
    /// its length.
    pub open spec fn encoding(self) -> Seq<u8> {
        seq![self.policy_type.tag()] + field_bytes(self.config)
    }
}

/// What reading `data` as a serialized policy gives.
pub open spec fn decode_policy(data: Seq<u8>) -> Result<PolicyView, CodecError> {
    if data.len() < 1 {
        Err(CodecError::UnexpectedEnd)
    } else {
        match PolicyType::of_tag(data[0]) {
            None => Err(CodecError::InvalidValue),
            Some(policy_type) => match take_field(data.skip(1)) {
                None => Err(CodecError::UnexpectedEnd),
                Some((config, rest)) => if rest.len() > 0 {
                    Err(CodecError::TrailingBytes)
                } else {
                    Ok(PolicyView { policy_type, config })
                },
            },
        }
    }
}

/// The keys of `signers` one after the other.
pub open spec fn signer_bytes(signers: Seq<[u8; 32]>) -> Seq<u8>
    decreases signers.len(),
{
    if signers.len() == 0 {
        Seq::empty()
    } else {
        signer_bytes(signers.drop_last()) + signers.last()@
    }
}

/// Each signer takes thirty-two bytes of a multi-signature configuration.
pub proof fn lemma_signer_bytes_len(signers: Seq<[u8; 32]>)
    ensures
        signer_bytes(signers).len() == 32 * signers.len(),
    decreases signers.len(),
{
    if signers.len() > 0 {
        lemma_signer_bytes_len(signers.drop_last());
    }
}

/// A rule on what an account may do, of one kind and with the
/// configuration bytes of that kind.
#[derive(Debug, Clone, PartialEq)]
pub struct Policy {
    /// The kind of rule.
    pub policy_type: PolicyType,
    /// The settings of the rule, laid out as its kind prescribes.
    pub config: Vec<u8>,
}

impl View for Policy {
    type V = PolicyView;

    open spec fn view(&self) -> PolicyView {
        PolicyView { policy_type: self.policy_type, config: self.config@ }
    }
}

impl Policy {
    /// A policy of the given kind and configuration.
    pub fn new(policy_type: PolicyType, config: Vec<u8>) -> (policy: Policy)
        ensures
            policy@ == (PolicyView { policy_type, config: config@ }),
    {
        Policy { policy_type, config }
    }

    /// The policy without restrictions.
    pub fn open() -> (policy: Policy)
        ensures
            policy@ == (PolicyView { policy_type: PolicyType::Open, config: Seq::empty() }),
    {
        Policy { policy_type: PolicyType::Open, config: Vec::new() }
    }

    /// A ceiling of `max_amount_lamports` on each action.
    pub fn spending_limit(max_amount_lamports: u64) -> (policy: Policy)
        ensures
            policy@ == (PolicyView {
                policy_type: PolicyType::SpendingLimit,
                config: u64_le_bytes(max_amount_lamports),
            }),
    {
        let mut config = Vec::new();
        put_u64(&mut config, max_amount_lamports);
        assert(config@ =~= u64_le_bytes(max_amount_lamports));
        Policy { policy_type: PolicyType::SpendingLimit, config }
    }

    /// A ceiling of `max_amount_lamports` on each action, with the time at
    /// which a daily total would start anew.
    pub fn daily_limit(max_amount_lamports: u64, reset_timestamp: i64) -> (policy: Policy)
        ensures
            policy@ == (PolicyView {
                policy_type: PolicyType::DailyLimit,
                config: u64_le_bytes(max_amount_lamports) + i64_le_bytes(reset_timestamp),
            }),
    {
        let mut config = Vec::new();
        put_u64(&mut config, max_amount_lamports);
        put_i64(&mut config, reset_timestamp);
        assert(config@ =~= u64_le_bytes(max_amount_lamports) + i64_le_bytes(reset_timestamp));
        Policy { policy_type: PolicyType::DailyLimit, config }
    }

    /// A policy that records the keys of the signers who must approve.
    pub fn multi_sig(required_signers: Vec<[u8; 32]>) -> (policy: Policy)
        ensures
            policy@ == (PolicyView {
                policy_type: PolicyType::MultiSig,
                config: signer_bytes(required_signers@),
            }),
    {
        let mut config: Vec<u8> = Vec::new();
        let mut i: usize = 0;
        while i < required_signers.len()
            invariant
                i <= required_signers.len(),
                config@ == signer_bytes(required_signers@.take(i as int)),
            decreases required_signers.len() - i,
        {
            put_bytes(&mut config, required_signers[i].as_slice());
            proof {
                let grown = required_signers@.take(i + 1);
                assert(grown.drop_last() =~= required_signers@.take(i as int));
                assert(grown.last() == required_signers@[i as int]);
            }
            i += 1;
        }
        assert(required_signers@.take(i as int) =~= required_signers@);
        Policy { policy_type: PolicyType::MultiSig, config }
    }

    /// A lock until `unlock_timestamp`.
    pub fn time_locked(unlock_timestamp: i64) -> (policy: Policy)
        ensures
            policy@ == (PolicyView {
                policy_type: PolicyType::TimeLocked,
                config: i64_le_bytes(unlock_timestamp),
            }),
    {
        let mut config = Vec::new();
        put_i64(&mut config, unlock_timestamp);
        assert(config@ =~= i64_le_bytes(unlock_timestamp));
        Policy { policy_type: PolicyType::TimeLocked, config }
    }

    /// Whether this policy permits an action of `transaction_amount` at
    /// `current_timestamp`. It keeps no state: a daily limit is held against
    /// the single action, not against a running total.
    pub fn evaluate(&self, transaction_amount: u64, current_timestamp: i64) -> (permitted: bool)
        ensures
            permitted == self@.permits(transaction_amount, current_timestamp),
    {
        match self.policy_type {
            PolicyType::Open => true,
            PolicyType::SpendingLimit => {
                match read_u64(self.config.as_slice()) {
                    None => false,
                    Some((max_amount, _)) => transaction_amount <= max_amount,
                }
            },
            PolicyType::DailyLimit => {
                if self.config.len() < 16 {
                    return false;
                }
                match read_u64(self.config.as_slice()) {
                    None => false,
                    Some((max_amount, _)) => transaction_amount <= max_amount,
                }
            },
            PolicyType::TimeLocked => {
                match read_i64(self.config.as_slice()) {
                    None => false,
                    Some((unlock_timestamp, _)) => current_timestamp >= unlock_timestamp,
                }
            },
            PolicyType::MultiSig => true,
        }
    }

    /// Serializes the policy. Fails only where the configuration is longer
    /// than its length prefix can say.
    pub fn to_bytes(&self) -> (bytes: Result<Vec<u8>, CodecError>)
        ensures
            self.config@.len() <= u32::MAX ==> (bytes matches Ok(b) && b@ == self@.encoding()),
            self.config@.len() > u32::MAX ==> bytes == Err::<Vec<u8>, CodecError>(
                CodecError::TooLong,
            ),
    {
        if self.config.len() > u32::MAX as usize {
            return Err(CodecError::TooLong);
        }
        let mut bytes: Vec<u8> = Vec::new();
        let tag: u8 = match self.policy_type {
            PolicyType::Open => 0,
            PolicyType::SpendingLimit => 1,
            PolicyType::DailyLimit => 2,
            PolicyType::MultiSig => 3,
            PolicyType::TimeLocked => 4,
        };
        bytes.push(tag);
        put_field(&mut bytes, self.config.as_slice());
        assert(bytes@ =~= self@.encoding());
        Ok(bytes)
    }

    /// Reads a serialized policy: the whole of `data`, no byte more or less.
    pub fn from_bytes(data: &[u8]) -> (policy: Result<Policy, CodecError>)
        ensures
            match decode_policy(data@) {
                Ok(view) => policy matches Ok(p) && p@ == view,
                Err(e) => policy matches Err(f) && f == e,
            },
    {
        if data.len() < 1 {
            return Err(CodecError::UnexpectedEnd);
        }
        let tag = data[0];
        let policy_type = if tag == 0 {
            PolicyType::Open
        } else if tag == 1 {
            PolicyType::SpendingLimit
        } else if tag == 2 {
            PolicyType::DailyLimit
        } else if tag == 3 {
            PolicyType::MultiSig
        } else if tag == 4 {
            PolicyType::TimeLocked
        } else {
            return Err(CodecError::InvalidValue);
        };
        let body = vstd::slice::slice_subrange(data, 1, data.len());
        assert(body@ =~= data@.skip(1));
        match read_field(body) {
            None => Err(CodecError::UnexpectedEnd),
            Some((config, rest)) => {
                if rest.len() > 0 {
                    Err(CodecError::TrailingBytes)
                } else {
                    Ok(Policy { policy_type, config })
                }
            },
        }
    }
}

/// Reading a serialized policy gives the policy back.
pub proof fn lemma_policy_round_trip(policy: PolicyView)
    requires
        policy.config.len() <= u32::MAX,
    ensures
        decode_policy(policy.encoding()) == Ok::<PolicyView, CodecError>(policy),
{
    let data = policy.encoding();
    lemma_field_round_trip(policy.config, Seq::empty());
    assert(data.skip(1) =~= field_bytes(policy.config) + Seq::<u8>::empty());
    assert(data[0] == policy.policy_type.tag());
}

/// A policy that was read from bytes is the policy that those bytes
/// serialize: nothing else reads as a policy.
pub proof fn lemma_read_policy_was_written(data: Seq<u8>)
    requires
        decode_policy(data) is Ok,
    ensures
        ({
            let policy = decode_policy(data).unwrap();
            &&& policy.config.len() <= u32::MAX
            &&& data == policy.encoding()
        }),
{
    let policy = decode_policy(data).unwrap();
    lemma_take_field_is_field(data.skip(1));
    assert(data =~= seq![data[0]] + data.skip(1));
    assert(data =~= policy.encoding());
}

/// A spending limit of `limit` permits exactly the amounts up to `limit`,
/// at any time.
pub proof fn lemma_spending_limit_permits(limit: u64, amount: u64, now: i64)
    ensures
        (PolicyView { policy_type: PolicyType::SpendingLimit, config: u64_le_bytes(limit) }).permits(
            amount,
            now,
        ) == (amount <= limit),
{
    lemma_u64_round_trip(limit, Seq::empty());
    assert(u64_le_bytes(limit) + Seq::<u8>::empty() =~= u64_le_bytes(limit));
}

/// A daily limit of `limit` permits exactly the amounts up to `limit`,
/// before and after its reset time.
pub proof fn lemma_daily_limit_permits(limit: u64, reset: i64, amount: u64, now: i64)
    ensures
        (PolicyView {
            policy_type: PolicyType::DailyLimit,
            config: u64_le_bytes(limit) + i64_le_bytes(reset),
        }).permits(amount, now) == (amount <= limit),
{
    lemma_u64_round_trip(limit, i64_le_bytes(reset));
    lemma_i64_round_trip(reset, Seq::empty());
}

/// A lock until `unlock` permits exactly from `unlock` on, whatever the
/// amount.
pub proof fn lemma_time_lock_permits(unlock: i64, amount: u64, now: i64)
    ensures
        (PolicyView { policy_type: PolicyType::TimeLocked, config: i64_le_bytes(unlock) }).permits(
            amount,
            now,
        ) == (now >= unlock),
{
    lemma_i64_round_trip(unlock, Seq::empty());
    assert(i64_le_bytes(unlock) + Seq::<u8>::empty() =~= i64_le_bytes(unlock));
}

} // verus!
