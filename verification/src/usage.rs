//! The usage figures of a subscription, and their sum over the sources of a
//! merged document.

use vstd::prelude::*;

verus! {

/// Upload, download and quota in bytes, and the instant of expiry in seconds
/// since the epoch; each may be absent.
#[derive(Clone, Copy, Debug, PartialEq, Eq)]
pub struct UsageSummary {
    pub upload: Option<i64>,
    pub download: Option<i64>,
    pub total: Option<i64>,
    pub expire: Option<i64>,
}

impl UsageSummary {
    /// The summary with each figure that `fetched` holds put in the place of
    /// its own.
    pub fn updated_with(&self, fetched: &UsageSummary) -> (r: UsageSummary)
        ensures
            r.upload == if fetched.upload is Some {
                fetched.upload
            } else {
                self.upload
            },
            r.download == if fetched.download is Some {
                fetched.download
            } else {
                self.download
            },
            r.total == if fetched.total is Some {
                fetched.total
            } else {
                self.total
            },
            r.expire == if fetched.expire is Some {
                fetched.expire
            } else {
                self.expire
            },
    {
        UsageSummary {
            upload: if fetched.upload.is_some() {
                fetched.upload
            } else {
                self.upload
            },
            download: if fetched.download.is_some() {
                fetched.download
            } else {
                self.download
            },
            total: if fetched.total.is_some() {
                fetched.total
            } else {
                self.total
            },
            expire: if fetched.expire.is_some() {
                fetched.expire
            } else {
                self.expire
            },
        }
    }
}

/// Whether any of the figures is present.
pub open spec fn any_present(values: Seq<Option<i64>>) -> bool {
    exists|i: int| 0 <= i < values.len() && (#[trigger] values[i]) is Some
}

/// The sum of the figures that are present.
pub open spec fn sum_of(values: Seq<Option<i64>>) -> int
    decreases values.len(),
{
    if values.len() == 0 {
        0
    } else {
        sum_of(values.drop_last()) + match values.last() {
            Some(v) => v as int,
            None => 0,
        }
    }
}

/// The least of the figures that are present.
pub open spec fn least_of(values: Seq<Option<i64>>) -> Option<i64>
    decreases values.len(),
{
    if values.len() == 0 {
        None
    } else {
        match (least_of(values.drop_last()), values.last()) {
            (None, last) => last,
            (least, None) => least,
            (Some(a), Some(b)) => Some(
                if a < b {
                    a
                } else {
                    b
                },
            ),
        }
    }
}

/// The sum of a figure over the sources: absent where it is absent in all of
/// them, else the sum of those that are present.
pub open spec fn total_of(values: Seq<Option<i64>>) -> Option<int> {
    if any_present(values) {
        Some(sum_of(values))
    } else {
        None
    }
}

pub open spec fn uploads(sources: Seq<UsageSummary>) -> Seq<Option<i64>> {
    Seq::new(sources.len(), |i: int| sources[i].upload)
}

pub open spec fn downloads(sources: Seq<UsageSummary>) -> Seq<Option<i64>> {
    Seq::new(sources.len(), |i: int| sources[i].download)
}

pub open spec fn totals(sources: Seq<UsageSummary>) -> Seq<Option<i64>> {
    Seq::new(sources.len(), |i: int| sources[i].total)
}

pub open spec fn expiries(sources: Seq<UsageSummary>) -> Seq<Option<i64>> {
    Seq::new(sources.len(), |i: int| sources[i].expire)
}

/// Whether a sum can be written in 64 bits.
pub open spec fn fits(total: Option<int>) -> bool {
    match total {
        Some(v) => i64::MIN <= v <= i64::MAX,
        None => true,
    }
}

/// Whether the three sums over the sources can be written in 64 bits.
pub open spec fn sums_fit(sources: Seq<UsageSummary>) -> bool {
    &&& fits(total_of(uploads(sources)))
    &&& fits(total_of(downloads(sources)))
    &&& fits(total_of(totals(sources)))
}

/// Whether `r` is the figure `total`.
pub open spec fn is_total(r: Option<i64>, total: Option<int>) -> bool {
    match total {
        Some(v) => r == Some(v as i64) && v == v as i64,
        None => r is None,
    }
}

/// Whether `r` is the aggregate of `sources`: each of upload, download and
/// total the sum over the sources, the expiry the earliest of theirs.
pub open spec fn is_aggregate(r: UsageSummary, sources: Seq<UsageSummary>) -> bool {
    &&& is_total(r.upload, total_of(uploads(sources)))
    &&& is_total(r.download, total_of(downloads(sources)))
    &&& is_total(r.total, total_of(totals(sources)))
    &&& r.expire == least_of(expiries(sources))
}

/// One running sum: whether a figure was met, and the sum so far.
struct Running {
    met: bool,
    sum: i128,
}

impl Running {
    spec fn tracks(&self, values: Seq<Option<i64>>) -> bool {
        &&& self.met == any_present(values)
        &&& self.sum == sum_of(values)
        &&& -0x8000_0000_0000_0000 * values.len() <= self.sum <= 0x8000_0000_0000_0000
            * values.len()
    }

    fn take(&mut self, v: Option<i64>, Ghost(values): Ghost<Seq<Option<i64>>>)
        requires
            old(self).tracks(values),
            values.len() < usize::MAX,
        ensures
            final(self).tracks(values.push(v)),
    {
        proof {
            let next = values.push(v);
            assert(next.drop_last() =~= values);
            if any_present(values) {
                let i = choose|i: int| 0 <= i < values.len() && (#[trigger] values[i]) is Some;
                assert(next[i] is Some);
            }
            if any_present(next) {
                let i = choose|i: int| 0 <= i < next.len() && (#[trigger] next[i]) is Some;
                if i < values.len() {
                    assert(values[i] is Some);
                }
            }
            if v is Some {
                assert(next[values.len() as int] is Some);
            }
        }
        match v {
            Some(x) => {
                self.met = true;
                self.sum = self.sum + x as i128;
            },
            None => {},
        }
    }

    fn close(&self, Ghost(values): Ghost<Seq<Option<i64>>>) -> (r: Option<Option<i64>>)
        requires
            self.tracks(values),
        ensures
            fits(total_of(values)) ==> (r matches Some(t) && is_total(t, total_of(values))),
            !fits(total_of(values)) ==> r is None,
    {
        if !self.met {
            Some(None)
        } else if self.sum < i64::MIN as i128 || self.sum > i64::MAX as i128 {
            None
        } else {
            Some(Some(self.sum as i64))
        }
    }
}

/// Folds the usage figures of the sources into one summary; `None` where one
/// of the sums cannot be written in 64 bits.
pub fn checked_aggregate(sources: &Vec<UsageSummary>) -> (r: Option<UsageSummary>)
    ensures
        sums_fit(sources@) ==> (r matches Some(u) && is_aggregate(u, sources@)),
        !sums_fit(sources@) ==> r is None,
{
    let mut upload = Running { met: false, sum: 0 };
    let mut download = Running { met: false, sum: 0 };
    let mut total = Running { met: false, sum: 0 };
    let mut expire: Option<i64> = None;
    let ghost all = sources@;
    let mut i: usize = 0;
    proof {
        assert(uploads(all).subrange(0, 0) =~= Seq::<Option<i64>>::empty());
        assert(downloads(all).subrange(0, 0) =~= Seq::<Option<i64>>::empty());
        assert(totals(all).subrange(0, 0) =~= Seq::<Option<i64>>::empty());
        assert(expiries(all).subrange(0, 0) =~= Seq::<Option<i64>>::empty());
    }
    while i < sources.len()
        invariant
            i <= sources.len(),
            all == sources@,
            upload.tracks(uploads(all).subrange(0, i as int)),
            download.tracks(downloads(all).subrange(0, i as int)),
            total.tracks(totals(all).subrange(0, i as int)),
            expire == least_of(expiries(all).subrange(0, i as int)),
        decreases sources.len() - i,
    {
        let s = sources[i];
        proof {
            assert(uploads(all).subrange(0, i + 1) =~= uploads(all).subrange(0, i as int).push(
                s.upload,
            ));
            assert(downloads(all).subrange(0, i + 1) =~= downloads(all).subrange(
                0,
                i as int,
            ).push(s.download));
            assert(totals(all).subrange(0, i + 1) =~= totals(all).subrange(0, i as int).push(
                s.total,
            ));
            assert(expiries(all).subrange(0, i + 1).drop_last() =~= expiries(all).subrange(
                0,
                i as int,
            ));
            assert(expiries(all).subrange(0, i + 1).last() == s.expire);
        }
        upload.take(s.upload, Ghost(uploads(all).subrange(0, i as int)));
        download.take(s.download, Ghost(downloads(all).subrange(0, i as int)));
        total.take(s.total, Ghost(totals(all).subrange(0, i as int)));
        expire = match (expire, s.expire) {
            (None, curr) => curr,
            (last_min, None) => last_min,
            (Some(last_min), Some(curr)) => {
                if last_min < curr {
                    Some(last_min)
                } else {
                    Some(curr)
                }
            },
        };
        i = i + 1;
    }
    proof {
        assert(uploads(all).subrange(0, i as int) =~= uploads(all));
        assert(downloads(all).subrange(0, i as int) =~= downloads(all));
        assert(totals(all).subrange(0, i as int) =~= totals(all));
        assert(expiries(all).subrange(0, i as int) =~= expiries(all));
    }
    let u = upload.close(Ghost(uploads(all)));
    let d = download.close(Ghost(downloads(all)));
    let t = total.close(Ghost(totals(all)));
    match (u, d, t) {
        (Some(upload), Some(download), Some(total)) => Some(
            UsageSummary { upload, download, total, expire },
        ),
        _ => None,
    }
}

/// Folds the usage figures of the sources into one summary: each of upload,
/// download and total is absent where it is absent in every source and else
/// the sum of those present; the expiry is the earliest of those present.
pub fn aggregate(sources: &Vec<UsageSummary>) -> (r: UsageSummary)
    requires
        sums_fit(sources@),
    ensures
        is_aggregate(r, sources@),
{
    match checked_aggregate(sources) {
        Some(u) => u,
        None => UsageSummary { upload: None, download: None, total: None, expire: None },
    }
}

} // verus!
