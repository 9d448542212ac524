//! Teaching-service accounting: whole hours of a teacher's occupancies,
//! tallied per session kind.

use vstd::prelude::*;

use crate::models::{Occupancy, OccupancyType};

verus! {

/// The whole hours of one occupancy.
pub open spec fn hours_of(o: Occupancy) -> int {
    (o.end_datetime - o.start_datetime) / 3600
}

/// The total whole hours of the occupancies of one kind.
pub open spec fn sum_hours(s: Seq<Occupancy>, t: OccupancyType) -> int
    decreases s.len(),
{
    if s.len() == 0 {
        0
    } else {
        sum_hours(s.drop_last(), t) + if s.last().occupancy_type == t {
            hours_of(s.last())
        } else {
            0
        }
    }
}

/// Hour tallies per session kind.
#[derive(Clone, Copy, PartialEq, Eq, Structural, Debug)]
pub struct Service {
    pub cm: u32,
    pub projet: u32,
    pub td: u32,
    pub tp: u32,
    pub administration: u32,
    pub external: u32,
}

impl Service {
    /// All hours together.
    pub fn total(&self) -> (r: u32)
        requires
            self.cm + self.projet + self.td + self.tp + self.administration + self.external
                <= u32::MAX,
        ensures
            r == self.cm + self.projet + self.td + self.tp + self.administration + self.external,
    {
        self.cm + self.projet + self.td + self.tp + self.administration + self.external
    }
}

impl Default for Service {
    fn default() -> (r: Self)
        ensures
            r == (Service { cm: 0, projet: 0, td: 0, tp: 0, administration: 0, external: 0 }),
    {
        Service { cm: 0, projet: 0, td: 0, tp: 0, administration: 0, external: 0 }
    }
}

proof fn lemma_sum_hours_prefix(s: Seq<Occupancy>, t: OccupancyType, k: int)
    requires
        0 <= k <= s.len(),
        forall|i: int|
            0 <= i < s.len() ==> (#[trigger] s[i]).start_datetime <= s[i].end_datetime,
    ensures
        0 <= sum_hours(s.subrange(0, k), t) <= sum_hours(s, t),
    decreases s.len(),
{
    if s.len() == 0 {
        assert(s.subrange(0, k) =~= s);
    } else if k == s.len() {
        assert(s.subrange(0, k) =~= s);
        assert(s.drop_last() =~= s.subrange(0, s.len() - 1));
        lemma_sum_hours_prefix(s.drop_last(), t, s.len() - 1);
        assert(s.drop_last().subrange(0, s.len() - 1) =~= s.drop_last());
        assert(hours_of(s.last()) >= 0);
    } else {
        assert(s.subrange(0, k) =~= s.drop_last().subrange(0, k));
        lemma_sum_hours_prefix(s.drop_last(), t, k);
        assert(hours_of(s.last()) >= 0);
    }
}

/// Tallies the whole hours of the given occupancies per session kind.
pub fn count_hours(occupancies: &Vec<Occupancy>) -> (r: Service)
    requires
        forall|i: int|
            0 <= i < occupancies@.len() ==> (#[trigger] occupancies@[i]).start_datetime
                <= occupancies@[i].end_datetime,
        sum_hours(occupancies@, OccupancyType::CM) <= u32::MAX,
        sum_hours(occupancies@, OccupancyType::TD) <= u32::MAX,
        sum_hours(occupancies@, OccupancyType::TP) <= u32::MAX,
        sum_hours(occupancies@, OccupancyType::Projet) <= u32::MAX,
        sum_hours(occupancies@, OccupancyType::Administration) <= u32::MAX,
        sum_hours(occupancies@, OccupancyType::External) <= u32::MAX,
    ensures
        r.cm == sum_hours(occupancies@, OccupancyType::CM),
        r.td == sum_hours(occupancies@, OccupancyType::TD),
        r.tp == sum_hours(occupancies@, OccupancyType::TP),
        r.projet == sum_hours(occupancies@, OccupancyType::Projet),
        r.administration == sum_hours(occupancies@, OccupancyType::Administration),
        r.external == sum_hours(occupancies@, OccupancyType::External),
{
    let mut service = Service { cm: 0, projet: 0, td: 0, tp: 0, administration: 0, external: 0 };
    let mut i: usize = 0;
    while i < occupancies.len()
        invariant
            i <= occupancies@.len(),
            service.cm == sum_hours(occupancies@.subrange(0, i as int), OccupancyType::CM),
            service.td == sum_hours(occupancies@.subrange(0, i as int), OccupancyType::TD),
            service.tp == sum_hours(occupancies@.subrange(0, i as int), OccupancyType::TP),
            service.projet == sum_hours(occupancies@.subrange(0, i as int), OccupancyType::Projet),
            service.administration == sum_hours(
                occupancies@.subrange(0, i as int),
                OccupancyType::Administration,
            ),
            service.external == sum_hours(
                occupancies@.subrange(0, i as int),
                OccupancyType::External,
            ),
        decreases occupancies@.len() - i,
    {
        let o = &occupancies[i];
        let elapsed = o.end_datetime - o.start_datetime;
        let elapsed_hours_wide = elapsed / 3600;
        proof {
            assert(occupancies@.subrange(0, (i + 1) as int).drop_last() =~= occupancies@.subrange(
                0,
                i as int,
            ));
            assert(occupancies@.subrange(0, (i + 1) as int).last() == occupancies@[i as int]);
            lemma_sum_hours_prefix(occupancies@, OccupancyType::CM, i + 1);
            lemma_sum_hours_prefix(occupancies@, OccupancyType::TD, i + 1);
            lemma_sum_hours_prefix(occupancies@, OccupancyType::TP, i + 1);
            lemma_sum_hours_prefix(occupancies@, OccupancyType::Projet, i + 1);
            lemma_sum_hours_prefix(occupancies@, OccupancyType::Administration, i + 1);
            lemma_sum_hours_prefix(occupancies@, OccupancyType::External, i + 1);
        }
        let elapsed_hours = elapsed_hours_wide as u32;
        match o.occupancy_type {
            OccupancyType::CM => {
                service.cm = service.cm + elapsed_hours;
            },
            OccupancyType::TD => {
                service.td = service.td + elapsed_hours;
            },
            OccupancyType::TP => {
                service.tp = service.tp + elapsed_hours;
            },
            OccupancyType::Projet => {
                service.projet = service.projet + elapsed_hours;
            },
            OccupancyType::Administration => {
                service.administration = service.administration + elapsed_hours;
            },
            OccupancyType::External => {
                service.external = service.external + elapsed_hours;
            },
        }
        i = i + 1;
    }
    proof {
        assert(occupancies@.subrange(0, occupancies@.len() as int) =~= occupancies@);
    }
    service
}

} // verus!
