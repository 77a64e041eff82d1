//! Frequency and point value of five-card poker hands, estimated by dealing
//! hands at random from a pool of card identifiers.
//!
//! The crate holds the card model, the dealer that draws a hand, the judge
//! that names a hand's role, the trial driver and the score sheet.

pub mod card;
pub mod chunks;
pub mod counters;
pub mod deal;
pub mod error;
pub mod fold;
pub mod hand;
pub mod response;
pub mod role;
pub mod score;
pub mod simulate;
pub mod worker;

pub use card::{make_cards_from_id, Card, Suit};
pub use chunks::{clamp_trials, split_trials, MAX_TRIALS};
pub use counters::merge_counts;
pub use deal::{hand_from_draws, handout_cards, next_move, Handout, MAX_DRAWS};
pub use error::PorkerError;
pub use fold::{collect_results, ResultData};
pub use hand::{
    count_judge_role, is_flush, is_fulhouse, is_pair, is_royalflush, is_strait, is_straitflush,
    is_twopair, judge_role, sort_by_rank,
};
pub use response::{Request, Response, ResultRole};
pub use role::Role;
pub use score::{calc_score, SCORE_SHEET};
pub use simulate::{million_porker_parallel, run_simulation};
pub use worker::{run_trials, Counted};
