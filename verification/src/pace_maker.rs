//! Difficulty retargeting: pace block production by the gaps between the
//! latest blocks. The node itself runs at a fixed difficulty; this pacer
//! is offered for operators that retarget.

use vstd::prelude::*;
use crate::difficulty::Difficulty;
use crate::timestamp::Timestamp;

verus! {

/// What the pacer answers, as a value: fewer than three records keep the
/// easiest difficulty; a gap that doubled eases one notch (never below
/// the easiest), a gap that halved raises one notch, anything between
/// keeps the latest difficulty.
pub open spec fn spec_next_difficulty(records: Seq<(u8, i64)>, easiest: u8) -> u8 {
    if records.len() < 3 {
        easiest
    } else {
        let t1 = records[records.len() - 3].1 as int;
        let t2 = records[records.len() - 2].1 as int;
        let t3 = records[records.len() - 1].1 as int;
        let d = records[records.len() - 1].0;
        let duration12 = t2 - t1;
        let duration23 = t3 - t2;
        if duration12 > duration23 + duration23 {
            if d == u8::MAX {
                d
            } else {
                (d + 1) as u8
            }
        } else if duration12 + duration12 < duration23 {
            let eased = if d == 0 {
                0
            } else {
                (d - 1) as u8
            };
            if eased >= easiest {
                eased
            } else {
                easiest
            }
        } else {
            d
        }
    }
}

/// The next difficulty from the last three (difficulty, timestamp)
/// records, oldest first. The time spans are compared in wide arithmetic,
/// so no span overflows.
pub fn next_difficulty(records: &Vec<(Difficulty, Timestamp)>, easiest: Difficulty) -> (r:
    Difficulty)
    ensures
        r@ == spec_next_difficulty(
            records@.map_values(|p: (Difficulty, Timestamp)| (p.0@, p.1@)),
            easiest@,
        ),
{
    let ghost views = records@.map_values(|p: (Difficulty, Timestamp)| (p.0@, p.1@));
    if records.len() < 3 {
        return easiest;
    }
    let n = records.len();
    let (d3, stamp3) = records[n - 1];
    let (_, stamp2) = records[n - 2];
    let (_, stamp1) = records[n - 3];
    proof {
        assert(views[n - 1] == (records@[n - 1].0@, records@[n - 1].1@));
        assert(views[n - 2] == (records@[n - 2].0@, records@[n - 2].1@));
        assert(views[n - 3] == (records@[n - 3].0@, records@[n - 3].1@));
    }
    let t1 = stamp1.nanos() as i128;
    let t2 = stamp2.nanos() as i128;
    let t3 = stamp3.nanos() as i128;
    let duration12 = t2 - t1;
    let duration23 = t3 - t2;
    if duration12 > duration23 + duration23 {
        d3.raise()
    } else if duration12 + duration12 < duration23 {
        let eased = d3.ease();
        if easiest.le(&eased) {
            eased
        } else {
            easiest
        }
    } else {
        d3
    }
}

} // verus!
