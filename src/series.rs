use vstd::prelude::*;
use crate::price::{GridPackage, PricePoint, add_grid_rate, adjustable, adjusted, valid_timestamp};

verus! {

/// Timestamps strictly increase and each lies in the accepted range.
pub open spec fn chronological(points: Seq<PricePoint>) -> bool {
    &&& forall|i: int| 0 <= i < points.len() ==> valid_timestamp(#[trigger] points[i].timestamp as int)
    &&& forall|i: int, j: int| 0 <= i < j < points.len() ==> points[i].timestamp < points[j].timestamp
}

/// One day's prices: non-empty and in chronological order.
pub struct PriceSeries {
    points: Vec<PricePoint>,
}

/// Why a list of points is not a day's series.
#[derive(Clone, Copy, Debug, PartialEq, Eq, Structural)]
pub enum SeriesError {
    Empty,
    /// A timestamp lies outside the accepted range.
    OutOfRange,
    /// A timestamp does not come after the one before it.
    NotIncreasing,
}

impl PriceSeries {
    pub closed spec fn view(&self) -> Seq<PricePoint> {
        self.points@
    }

    pub open spec fn wf(&self) -> bool {
        self@.len() > 0 && chronological(self@)
    }

    /// Accepts a list of points as a day's series, or says why not.
    pub fn from_points(points: Vec<PricePoint>) -> (r: Result<PriceSeries, SeriesError>)
        ensures
            points@.len() == 0 ==> r == Err::<PriceSeries, SeriesError>(SeriesError::Empty),
            r is Ok <==> points@.len() > 0 && chronological(points@),
            r is Ok ==> r.unwrap()@ == points@ && r.unwrap().wf(),
            r == Err::<PriceSeries, SeriesError>(SeriesError::OutOfRange) ==> exists|i: int|
                0 <= i < points@.len() && !valid_timestamp(#[trigger] points@[i].timestamp as int),
            r == Err::<PriceSeries, SeriesError>(SeriesError::NotIncreasing) ==> exists|i: int|
                0 < i < points@.len() && points@[i - 1].timestamp >= #[trigger] points@[i].timestamp,
    {
        if points.len() == 0 {
            return Err(SeriesError::Empty);
        }
        let mut i: usize = 0;
        while i < points.len()
            invariant
                0 <= i <= points@.len(),
                forall|k: int| 0 <= k < i ==> valid_timestamp(#[trigger] points@[k].timestamp as int),
                forall|a: int, b: int| 0 <= a < b < i ==> points@[a].timestamp < points@[b].timestamp,
            decreases points@.len() - i,
        {
            let ts = points[i].timestamp;
            if ts < crate::price::MIN_TIMESTAMP || ts > crate::price::MAX_TIMESTAMP {
                assert(!valid_timestamp(points@[i as int].timestamp as int));
                return Err(SeriesError::OutOfRange);
            }
            if i > 0 && points[i - 1].timestamp >= ts {
                assert(points@[i - 1].timestamp >= points@[i as int].timestamp);
                return Err(SeriesError::NotIncreasing);
            }
            proof {
                assert forall|a: int, b: int| 0 <= a < b < i + 1 implies points@[a].timestamp < points@[b].timestamp by {
                    if b == i && a < i - 1 {
                        assert(points@[a].timestamp < points@[i - 1].timestamp);
                    }
                }
            }
            i = i + 1;
        }
        Ok(PriceSeries { points })
    }

    pub fn len(&self) -> (r: usize)
        ensures
            r == self@.len(),
    {
        self.points.len()
    }

    pub fn get(&self, i: usize) -> (r: PricePoint)
        requires
            i < self@.len(),
        ensures
            r == self@[i as int],
    {
        self.points[i]
    }

    /// The earliest point.
    pub fn first(&self) -> (r: PricePoint)
        requires
            self.wf(),
        ensures
            r == self@[0],
    {
        self.points[0]
    }

    /// The latest point.
    pub fn last(&self) -> (r: PricePoint)
        requires
            self.wf(),
        ensures
            r == self@[self@.len() - 1],
    {
        self.points[self.points.len() - 1]
    }

    /// The series with the package's grid rate added to every price, or `None`
    /// when some sum does not fit in an `i64`.
    pub fn with_grid_rates(&self, package: &GridPackage) -> (r: Option<PriceSeries>)
        requires
            self.wf(),
        ensures
            r is Some <==> forall|i: int| 0 <= i < self@.len() ==> adjustable(#[trigger] self@[i].price as int, *package),
            r is Some ==> r.unwrap().wf() && r.unwrap()@.len() == self@.len()
                && forall|i: int| 0 <= i < self@.len() ==> #[trigger] r.unwrap()@[i] == adjusted(self@[i], *package),
    {
        let mut out: Vec<PricePoint> = Vec::new();
        let mut i: usize = 0;
        while i < self.points.len()
            invariant
                self.wf(),
                i <= self@.len(),
                out@.len() == i,
                forall|k: int| 0 <= k < i ==> adjustable(#[trigger] self@[k].price as int, *package),
                forall|k: int| 0 <= k < i ==> #[trigger] out@[k] == adjusted(self@[k], *package),
            decreases self@.len() - i,
        {
            let p = self.points[i];
            let fits_day = if package.day >= 0 { p.price <= i64::MAX - package.day } else { p.price >= i64::MIN - package.day };
            let fits_night = if package.night >= 0 { p.price <= i64::MAX - package.night } else { p.price >= i64::MIN - package.night };
            if !(fits_day && fits_night) {
                return None;
            }
            out.push(add_grid_rate(&p, package));
            i = i + 1;
        }
        Some(PriceSeries { points: out })
    }

    /// The points, in order.
    pub fn points(&self) -> (r: &Vec<PricePoint>)
        ensures
            r@ == self@,
    {
        &self.points
    }
}

} // verus!
