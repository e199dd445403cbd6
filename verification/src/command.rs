//! Commands: requests that change one player.
use crate::consume_reward::{FanBonus, RewardRules};
use crate::domain::UserIdentity;
use crate::errors::StoreError;
use crate::order::{order_kept, well_keyed};
use crate::outcome::{Outcome, Summary};
use crate::player::{Player, PlayerModel};
use crate::table::Key;
use vstd::prelude::*;

verus! {

/// A request that changes something: whose it is, its place in the session and
/// the key by which a repeated request is known.
#[derive(Clone, Debug)]
pub struct RpcMutation {
    pub nonce: i64,
    pub identity: UserIdentity,
    pub request_seq: i64,
    pub rpc: String,
    pub idempotency_key: String,
    pub committed_at: i64,
}

/// A request, as a mathematical value.
pub ghost struct Mutation {
    pub nonce: i64,
    pub usn: i64,
    pub user_id: Seq<char>,
    pub request_seq: i64,
    pub rpc: Seq<char>,
    pub key: Seq<char>,
    pub now: i64,
}

impl View for RpcMutation {
    type V = Mutation;

    open spec fn view(&self) -> Mutation {
        Mutation {
            nonce: self.nonce,
            usn: self.identity.usn,
            user_id: self.identity.user_id@,
            request_seq: self.request_seq,
            rpc: self.rpc@,
            key: self.idempotency_key@,
            now: self.committed_at,
        }
    }
}

/// What a command does: the player after it, its answer, and what a repetition
/// of the request is answered. Or why it is refused, the player unchanged.
pub type Effect = Result<(PlayerModel, Outcome, Outcome), StoreError>;

/// The rules of rewards.
pub type Rules = Seq<(Key, FanBonus)>;

/// The effect of a command that answers a repetition as it did the first time.
pub open spec fn answered(p: PlayerModel, answer: Outcome) -> Effect {
    Ok((p, answer, answer))
}

/// A request that changes one player.
pub trait Command {
    /// What a caller has to see to.
    spec fn valid(&self) -> bool;

    /// What the command does.
    spec fn effect(&self, p: PlayerModel, m: Mutation, rules: Rules) -> Effect;

    /// A player whose tables are in order has them in order afterwards.
    proof fn keeps_order(&self, p: PlayerModel, m: Mutation, rules: Rules)
        requires
            well_keyed(p),
        ensures
            order_kept(self.effect(p, m, rules)),
    ;

    /// Does it, unless it is refused; then `p` is to be given up.
    fn run(&self, p: &mut Player, m: &RpcMutation, rules: &RewardRules) -> (r: Result<
        (Summary, Summary),
        StoreError,
    >)
        requires
            self.valid(),
        ensures
            executed(self.effect(old(p)@, m@, rules@), final(p)@, r),
    ;
}

/// What running a command returns, and what it leaves.
pub open spec fn executed(
    effect: Effect,
    after: PlayerModel,
    r: Result<(Summary, Summary), StoreError>,
) -> bool {
    match effect {
        Err(e) => r == Err::<(Summary, Summary), StoreError>(e),
        Ok((q, answer, repeated)) => match r {
            Ok((x, y)) => x@ == answer && y@ == repeated && after == q,
            Err(_) => false,
        },
    }
}

} // verus!
