//! Tokens that unlock the feedback on a submission.

use vstd::prelude::*;

use crate::ids::has_id;
use crate::ioi::config::{TokenConfig, TokenMode};
use crate::text::{concat, decimal_i64};
use crate::text;

verus! {

/// What a contestant has spent.
#[derive(Debug, Clone, PartialEq, Eq)]
pub struct TokenState {
    pub used: u32,
    pub tokened_submission_ids: Vec<i32>,
}

impl Default for TokenState {
    fn default() -> (r: Self)
        ensures
            r.used == 0,
            r.tokened_submission_ids@.len() == 0,
    {
        TokenState { used: 0, tokened_submission_ids: Vec::new() }
    }
}

/// The tokens that have been handed out by now. A regenerating budget gains
/// one token per interval, up to its maximum.
pub open spec fn granted(config: TokenConfig, elapsed_minutes: nat) -> nat {
    match config.mode {
        TokenMode::Off => u32::MAX as nat,
        TokenMode::FixedBudget => config.initial as nat,
        TokenMode::Regenerating => {
            let interval = if config.regen_interval_min == 0 {
                1nat
            } else {
                config.regen_interval_min as nat
            };
            let all = config.initial as nat + elapsed_minutes / interval;
            if all < config.max as nat {
                all
            } else {
                config.max as nat
            }
        },
    }
}

/// The tokens at hand: without a budget there is no end to them, else those
/// handed out less those used.
pub open spec fn at_hand(config: TokenConfig, used: nat, elapsed_minutes: nat) -> nat {
    let all = granted(config, elapsed_minutes);
    if config.mode is Off {
        all
    } else if all >= used {
        (all - used) as nat
    } else {
        0
    }
}

pub fn available_tokens(config: &TokenConfig, state: &TokenState, elapsed_minutes: u64) -> (r: u32)
    ensures
        r == at_hand(*config, state.used as nat, elapsed_minutes as nat),
{
    match config.mode {
        TokenMode::Off => u32::MAX,
        TokenMode::FixedBudget => config.initial.saturating_sub(state.used),
        TokenMode::Regenerating => {
            let interval: u64 = if config.regen_interval_min == 0 {
                1
            } else {
                config.regen_interval_min as u64
            };
            let all: u128 = config.initial as u128 + (elapsed_minutes / interval) as u128;
            let total: u32 = if all < config.max as u128 {
                all as u32
            } else {
                config.max
            };
            total.saturating_sub(state.used)
        },
    }
}

/// Tokens never run out by waiting, and never exceed the maximum.
pub proof fn tokens_grow_with_time(config: TokenConfig, used: nat, sooner: nat, later: nat)
    requires
        sooner <= later,
    ensures
        at_hand(config, used, sooner) <= at_hand(config, used, later),
        config.mode is Regenerating ==> at_hand(config, used, later) <= config.max,
        config.mode is FixedBudget ==> at_hand(config, used, sooner) == at_hand(
            config,
            used,
            later,
        ),
{
    let interval = if config.regen_interval_min == 0 {
        1nat
    } else {
        config.regen_interval_min as nat
    };
    vstd::arithmetic::div_mod::lemma_div_is_ordered(
        sooner as int,
        later as int,
        interval as int,
    );
}

/// Where a contestant's tokens are stored.
pub open spec fn token_key_of(contest_id: i32, user_id: i32) -> Seq<char> {
    "tokens:"@ + text::decimal_int(contest_id as int) + ":"@ + text::decimal_int(user_id as int)
}

pub fn token_key(contest_id: i32, user_id: i32) -> (r: String)
    ensures
        r@ == token_key_of(contest_id, user_id),
{
    let mut out = concat("tokens:", decimal_i64(contest_id as i64).as_str());
    out.append(":");
    out.append(decimal_i64(user_id as i64).as_str());
    out
}

/// Whether a token was spent on this submission.
pub fn is_tokened(state: &TokenState, submission_id: i32) -> (r: bool)
    ensures
        r == state.tokened_submission_ids@.contains(submission_id),
{
    has_id(&state.tokened_submission_ids, submission_id)
}

} // verus!
