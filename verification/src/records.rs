//! Cache records and duplicate notices. A record is a snapshot taken the
//! first time some content was seen: who posted it, when, and a reference
//! that resolves back to the original message.

use vstd::prelude::*;
use crate::fingerprint::Fingerprint;

verus! {

/// Seconds in a day, for converting timestamp differences to whole days.
pub const SECONDS_PER_DAY: i64 = 86400;

/// Mathematical model of a stored link record.
pub ghost struct LinkRecordModel {
    pub url: Seq<char>,
    pub seen_at: int,
    pub submitter: Seq<char>,
    pub origin: Seq<char>,
}

/// Mathematical model of a stored image record.
pub ghost struct ImageRecordModel {
    pub fp: Seq<u8>,
    pub seen_at: int,
    pub submitter: Seq<char>,
    pub origin: Seq<char>,
}

/// Mathematical model of a duplicate notice.
pub ghost struct NoticeModel {
    pub prior_submitter: Seq<char>,
    pub days_ago: int,
    pub prior_origin: Seq<char>,
}

/// A link previously seen in the stream. Lookup equality is exact string
/// match on `url`: case and trailing-slash differences are distinct.
pub struct LinkRecord {
    pub url: String,
    pub seen_at: i64,
    pub submitter: String,
    pub origin: String,
}

impl View for LinkRecord {
    type V = LinkRecordModel;

    open spec fn view(&self) -> LinkRecordModel {
        LinkRecordModel {
            url: self.url@,
            seen_at: self.seen_at as int,
            submitter: self.submitter@,
            origin: self.origin@,
        }
    }
}

/// An image previously seen in the stream, held as its fingerprint.
pub struct ImageRecord {
    pub fp: Fingerprint,
    pub seen_at: i64,
    pub submitter: String,
    pub origin: String,
}

impl View for ImageRecord {
    type V = ImageRecordModel;

    open spec fn view(&self) -> ImageRecordModel {
        ImageRecordModel {
            fp: self.fp@,
            seen_at: self.seen_at as int,
            submitter: self.submitter@,
            origin: self.origin@,
        }
    }
}

/// What the engine reports on a duplicate: who posted the content first,
/// how many whole days ago (0 within the first 24 hours), and a reference
/// to the prior message. Rendering is left to the caller.
pub struct DuplicateNotice {
    pub prior_submitter: String,
    pub days_ago: i64,
    pub prior_origin: String,
}

impl View for DuplicateNotice {
    type V = NoticeModel;

    open spec fn view(&self) -> NoticeModel {
        NoticeModel {
            prior_submitter: self.prior_submitter@,
            days_ago: self.days_ago as int,
            prior_origin: self.prior_origin@,
        }
    }
}

/// Whole days from `seen` to `now`: 0 within the first 24 hours (or if
/// `now` is not after `seen`), and one more for each further full day.
pub open spec fn spec_days_between(seen: int, now: int) -> int {
    if now <= seen {
        0
    } else {
        (now - seen) / (SECONDS_PER_DAY as int)
    }
}

/// The notice produced for a record with the given fields when a duplicate
/// is reported at time `now`.
pub open spec fn spec_notice(submitter: Seq<char>, seen_at: int, origin: Seq<char>, now: int) -> NoticeModel {
    NoticeModel {
        prior_submitter: submitter,
        days_ago: spec_days_between(seen_at, now),
        prior_origin: origin,
    }
}

/// Whole days between two timestamps, both in seconds.
pub fn days_between(seen: i64, now: i64) -> (d: i64)
    requires
        0 <= seen,
        0 <= now,
    ensures
        d == spec_days_between(seen as int, now as int),
        0 <= d,
{
    if now <= seen {
        0
    } else {
        let diff: u64 = (now - seen) as u64;
        (diff / (SECONDS_PER_DAY as u64)) as i64
    }
}

impl LinkRecord {
    /// The duplicate notice attributing this record, reported at `now`.
    pub fn notice(&self, now: i64) -> (n: DuplicateNotice)
        requires
            0 <= self.seen_at,
            0 <= now,
        ensures
            n@ == spec_notice(self@.submitter, self@.seen_at, self@.origin, now as int),
    {
        DuplicateNotice {
            prior_submitter: self.submitter.clone(),
            days_ago: days_between(self.seen_at, now),
            prior_origin: self.origin.clone(),
        }
    }
}

impl ImageRecord {
    /// The duplicate notice attributing this record, reported at `now`.
    pub fn notice(&self, now: i64) -> (n: DuplicateNotice)
        requires
            0 <= self.seen_at,
            0 <= now,
        ensures
            n@ == spec_notice(self@.submitter, self@.seen_at, self@.origin, now as int),
    {
        DuplicateNotice {
            prior_submitter: self.submitter.clone(),
            days_ago: days_between(self.seen_at, now),
            prior_origin: self.origin.clone(),
        }
    }
}

} // verus!
