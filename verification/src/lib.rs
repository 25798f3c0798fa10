//! Staking ledger core: epochs, epoch-delayed containers, bond and unbond
//! accounting, slashes, validator sets and voting power.

pub mod address;
pub mod amounts;
pub mod bond;
pub mod decimal;
pub mod epoch;
pub mod epoched;
pub mod epoched_delta;
pub mod hash;
pub mod ledger;
pub mod parameters;
pub mod rpc;
pub mod slash;
pub mod text;
pub mod validator;
pub mod validator_set;
pub mod window;
