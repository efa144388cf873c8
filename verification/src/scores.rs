//! Aggregation of student score records: count, running total, and
//! the tracked minimum and maximum.

use vstd::prelude::*;

verus! {

/// One student's entry: a name and a non-negative grade.
pub struct ScoreRecord {
    pub name: String,
    pub score: u32,
}

/// The aggregate of a pass over the records.
pub struct ScoreStats {
    pub count: u32,
    pub total: u32,
    pub min_score: u32,
    pub min_name: String,
    pub max_score: u32,
    pub max_name: String,
}

/// Sum of the scores, wrapped to 32 bits as unsigned addition does.
pub open spec fn total_wrapped(s: Seq<ScoreRecord>) -> int
    decreases s.len(),
{
    if s.len() == 0 {
        0
    } else {
        (total_wrapped(s.drop_last()) + s.last().score) % 0x1_0000_0000
    }
}

/// One aggregation pass over the records.  The minimum is seeded at 0
/// and the maximum at the largest 32-bit value, both compared
/// strictly, so with non-negative grades neither tracking branch can
/// ever fire: the seeds and empty names come back unchanged.  The
/// contract states that observed behaviour; it is not corrected here.
pub fn aggregate_scores(records: &Vec<ScoreRecord>) -> (stats: ScoreStats)
    requires
        records@.len() <= u32::MAX,
    ensures
        stats.count == records@.len(),
        stats.total as int == total_wrapped(records@),
        stats.min_score == 0,
        stats.min_name@ == Seq::<char>::empty(),
        stats.max_score == u32::MAX,
        stats.max_name@ == Seq::<char>::empty(),
{
    let mut count: u32 = 0;
    let mut total: u32 = 0;
    let mut min_score: u32 = 0;
    let mut max_score: u32 = u32::MAX;
    let mut min_name = String::new();
    let mut max_name = String::new();
    let mut i: usize = 0;
    while i < records.len()
        invariant
            i <= records@.len() <= u32::MAX,
            count == i,
            total as int == total_wrapped(records@.take(i as int)),
            min_score == 0,
            min_name@ == Seq::<char>::empty(),
            max_score == u32::MAX,
            max_name@ == Seq::<char>::empty(),
        decreases records@.len() - i,
    {
        let score = records[i].score;
        proof {
            assert(records@.take(i as int + 1).drop_last() =~= records@.take(i as int));
            assert(records@.take(i as int + 1).last() == records@[i as int]);
        }
        total = total.wrapping_add(score);
        count = count + 1;
        if score < min_score {
            min_score = score;
            min_name = records[i].name.clone();
        } else if score > max_score {
            max_score = score;
            max_name = records[i].name.clone();
        }
        i = i + 1;
    }
    proof {
        assert(records@.take(records@.len() as int) =~= records@);
    }
    ScoreStats { count, total, min_score, min_name, max_score, max_name }
}

} // verus!
