//! A pooled-delegation staking lottery: deposits are delegated across collators, withdrawals are
//! queued until the staking protocol's unbonding delay has passed, and freed funds are re-staked.
use vstd::prelude::*;

pub mod assets;
pub mod calls;
pub mod laws;
pub mod ledger;
pub mod model;
pub mod pool;
pub mod queue;
pub mod selection;
pub mod stake;
pub mod sums;
pub mod types;

pub use calls::{run, Call, Outcome};
pub use pool::Pool;
pub use types::{Delegation, Origin, PoolConfig, PoolError, StakingError};
pub use queue::WithdrawalRequest;
pub use selection::CandidateSnapshot;

verus! {

} // verus!
