//! The request that starts a simulation and the response that reports it.

use vstd::prelude::*;

verus! {

/// What a caller asks for: how many hands to deal, and from which cards.
#[derive(Debug, PartialEq, Eq)]
pub struct Request {
    /// The number of hands to deal.
    pub num_of_atempt: u32,
    /// The pool of card identifiers to deal from.
    pub use_cards: Vec<u32>,
}

/// How many hands had each role, role by role.
#[derive(Debug, Clone, Copy, PartialEq, Eq, Structural)]
pub struct ResultRole {
    pub nopair: u32,
    pub onepair: u32,
    pub twopair: u32,
    pub threepair: u32,
    pub fourpair: u32,
    pub fulhouse: u32,
    pub flush: u32,
    pub strait: u32,
    pub straitflush: u32,
    pub royalflush: u32,
}

/// The report of one simulation: the score, the number of hands dealt, the
/// time it took in milliseconds, and the counters role by role.
#[derive(Debug, Clone, Copy, PartialEq, Eq, Structural)]
pub struct Response {
    pub score: u64,
    pub total_num_of_atempt: u32,
    pub time_ms: u128,
    pub result: ResultRole,
}

impl Response {
    /// Builds the report; the ten counters go to their roles in the order from
    /// `NoPair` up to `RoyalStraightFlush`.
    pub fn new(
        score: u64,
        total_num_of_atempt: u32,
        time_ms: u128,
        role_count: [u32; 10],
    ) -> (response: Response)
        ensures
            response == (Response {
                score,
                total_num_of_atempt,
                time_ms,
                result: ResultRole {
                    nopair: role_count@[0],
                    onepair: role_count@[1],
                    twopair: role_count@[2],
                    threepair: role_count@[3],
                    fourpair: role_count@[4],
                    fulhouse: role_count@[5],
                    flush: role_count@[6],
                    strait: role_count@[7],
                    straitflush: role_count@[8],
                    royalflush: role_count@[9],
                },
            }),
    {
        Response {
            score,
            total_num_of_atempt,
            time_ms,
            result: ResultRole {
                nopair: role_count[0],
                onepair: role_count[1],
                twopair: role_count[2],
                threepair: role_count[3],
                fourpair: role_count[4],
                fulhouse: role_count[5],
                flush: role_count[6],
                strait: role_count[7],
                straitflush: role_count[8],
                royalflush: role_count[9],
            },
        }
    }
}

} // verus!
