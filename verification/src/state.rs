//! What is remembered of a base between two rounds of the observation.

use vstd::prelude::*;

use crate::text;

verus! {

/// What is remembered of a base.
#[derive(Debug, Clone)]
pub struct BaseState {
    pub alias: String,
    /// The time of the last event that was dealt with, as the service gave it.
    pub last_processed_at: Option<String>,
    /// The hashes of the events of exactly that time.
    pub processed_hashes_at_last_dt: Vec<String>,
    pub last_checked_at: Option<String>,
    pub last_export_status: Option<String>,
    pub last_export_duration_sec: Option<u64>,
    pub consecutive_failures: u32,
    /// The SQL names of the catalogue of processors.
    pub storage_mapping: Option<StoredMapping>,
    /// The fingerprints of the service tables.
    pub sql_signals: Option<SqlSignals>,
}

/// The fingerprints by which a change of a base is seen.
#[derive(Debug, Clone, PartialEq, Eq)]
pub struct SqlSignals {
    pub config: String,
    pub extensions: String,
    pub processings: String,
    pub taken_at: String,
}

/// A storage mapping and when it was fetched.
#[derive(Debug, Clone, PartialEq, Eq)]
pub struct StoredMapping {
    pub table: String,
    pub field_storage: String,
    pub field_hash: String,
    pub field_kind: String,
    pub enum_table: String,
    pub fetched_at: String,
}

impl Default for SqlSignals {
    fn default() -> (r: Self)
        ensures
            r.config@.len() == 0,
            r.extensions@.len() == 0,
            r.processings@.len() == 0,
            r.taken_at@.len() == 0,
    {
        SqlSignals {
            config: String::new(),
            extensions: String::new(),
            processings: String::new(),
            taken_at: String::new(),
        }
    }
}

impl Default for BaseState {
    fn default() -> (r: Self)
        ensures
            r.alias@.len() == 0,
            r.last_processed_at is None,
            r.processed_hashes_at_last_dt@.len() == 0,
            r.last_checked_at is None,
            r.last_export_status is None,
            r.last_export_duration_sec is None,
            r.consecutive_failures == 0,
            r.storage_mapping is None,
            r.sql_signals is None,
    {
        BaseState {
            alias: String::new(),
            last_processed_at: None,
            processed_hashes_at_last_dt: Vec::new(),
            last_checked_at: None,
            last_export_status: None,
            last_export_duration_sec: None,
            consecutive_failures: 0,
            storage_mapping: None,
            sql_signals: None,
        }
    }
}

/// A moment: the seconds since the beginning of 1970 and the nanoseconds of
/// the second, which are more than a second's worth in a leap second.
pub type Instant = (i64, u32);

/// The moment that `chrono` reads in a text with an offset.
pub uninterp spec fn rfc3339_instant(s: Seq<char>) -> Option<Instant>;

/// The moment that `chrono` reads in a text of the form `%Y-%m-%dT%H:%M:%S`,
/// taken as UTC.
pub uninterp spec fn plain_instant(s: Seq<char>) -> Option<Instant>;

/// `chrono::DateTime::parse_from_rfc3339`: the moment, where the text is one,
/// depends on the text alone.
#[verifier::external_body]
fn parse_rfc3339(s: &str) -> (r: Option<Instant>)
    ensures
        r == rfc3339_instant(s@),
{
    let at = chrono::DateTime::parse_from_rfc3339(s).ok()?;
    Some((at.timestamp(), at.timestamp_subsec_nanos()))
}

/// `chrono::NaiveDateTime::parse_from_str` with the form
/// `%Y-%m-%dT%H:%M:%S`: the moment, where the text is one, depends on the
/// text alone.
#[verifier::external_body]
fn parse_plain(s: &str) -> (r: Option<Instant>)
    ensures
        r == plain_instant(s@),
{
    let at = chrono::NaiveDateTime::parse_from_str(s, "%Y-%m-%dT%H:%M:%S").ok()?.and_utc();
    Some((at.timestamp(), at.timestamp_subsec_nanos()))
}

/// `chrono::Utc::now`: the moment of the call, of which nothing is said.
#[verifier::external_body]
fn now() -> (r: Instant) {
    let at = chrono::Utc::now();
    (at.timestamp(), at.timestamp_subsec_nanos())
}

/// The moment that a text names: with an offset or in UTC.
pub open spec fn instant_of(s: Seq<char>) -> Option<Instant> {
    match rfc3339_instant(s) {
        Some(at) => Some(at),
        None => plain_instant(s),
    }
}

/// A second's worth of nanoseconds.
pub const NANOS: i128 = 1_000_000_000;

/// The nanoseconds from one moment to another. A leap second counts where the
/// other moment is later on its day than the one in the leap second.
pub open spec fn nanos_between(from: Instant, to: Instant) -> int {
    let leap = if to.0 as int % 86400 > from.0 as int % 86400 && from.1 >= NANOS {
        NANOS as int
    } else if to.0 as int % 86400 < from.0 as int % 86400 && to.1 >= NANOS {
        -(NANOS as int)
    } else {
        0
    };
    (to.0 - from.0) * NANOS + (to.1 - from.1) + leap
}

/// What was fetched at a moment is out of date: the moment is not known, or
/// the given number of days has passed and a whole second at least.
pub open spec fn out_of_date(at: Option<Instant>, now: Instant, ttl_days: u64) -> bool {
    match at {
        None => true,
        Some(at) => nanos_between(at, now) >= (ttl_days * 86400 + 1) * NANOS,
    }
}

/// The second of the day.
fn day_second(secs: i64) -> (r: u128)
    ensures
        r == secs as int % 86400,
{
    // a number of whole days that makes every moment positive
    let days: i128 = 106_751_991_167_301 * 86400;
    let shifted: u128 = (secs as i128 + days) as u128;
    shifted % 86400
}

/// Whether what was fetched at a moment is out of date.
pub fn is_out_of_date(at: Option<Instant>, now: Instant, ttl_days: u64) -> (r: bool)
    requires
        ttl_days <= u64::MAX / 86400,
    ensures
        r == out_of_date(at, now, ttl_days),
{
    match at {
        None => true,
        Some(at) => {
            let from_day: u128 = day_second(at.0);
            let to_day: u128 = day_second(now.0);
            let leap: i128 = if to_day > from_day && at.1 as i128 >= NANOS {
                NANOS
            } else if to_day < from_day && now.1 as i128 >= NANOS {
                -NANOS
            } else {
                0
            };
            let secs: i128 = now.0 as i128 - at.0 as i128;
            let nanos: i128 = now.1 as i128 - at.1 as i128;
            let limit: i128 = (ttl_days * 86400) as i128 + 1;
            secs * NANOS + nanos + leap >= limit * NANOS
        },
    }
}

impl BaseState {
    /// Whether the storage mapping has to be fetched again: there is none, its
    /// time cannot be read, or it is older than the given number of days. What
    /// the clock shows is not known.
    pub fn needs_storage_refetch(&self, ttl_days: u64) -> (r: bool)
        requires
            ttl_days <= u64::MAX / 86400,
        ensures
            match self.storage_mapping {
                None => r,
                Some(m) => exists|now: Instant|
                    r == #[trigger] out_of_date(instant_of(m.fetched_at@), now, ttl_days),
            },
    {
        match &self.storage_mapping {
            None => true,
            Some(m) => {
                let at = match parse_rfc3339(&m.fetched_at) {
                    Some(at) => Some(at),
                    None => parse_plain(&m.fetched_at),
                };
                let now = now();
                let r = is_out_of_date(at, now, ttl_days);
                assert(r == out_of_date(instant_of(m.fetched_at@), now, ttl_days));
                r
            },
        }
    }

    /// What is remembered of a base when there is nothing saved of it, or what
    /// was saved, under the name of the file that it was saved in.
    pub fn restored(alias: &str, saved: Option<BaseState>) -> (r: BaseState)
        ensures
            r.alias@ == alias@,
            match saved {
                Some(s) => r == (BaseState { alias: r.alias, ..s }),
                None => r.last_processed_at is None && r.processed_hashes_at_last_dt@.len() == 0
                    && r.last_checked_at is None && r.last_export_status is None
                    && r.last_export_duration_sec is None && r.consecutive_failures == 0
                    && r.storage_mapping is None && r.sql_signals is None,
            },
    {
        let mut state = match saved {
            Some(s) => s,
            None => BaseState::default(),
        };
        state.alias = alias.to_owned();
        state
    }

    /// The name of the file that remembers a base.
    pub fn file_name(alias: &str) -> (r: String)
        ensures
            r@ == alias@ + ".json"@,
    {
        let mut name = alias.to_owned();
        name.append(".json");
        name
    }
}

// Laws.

/// What was just fetched is not fetched again, however short it is kept.
pub proof fn fresh_mapping_is_kept(at: Instant, ttl_days: u64)
    ensures
        !out_of_date(Some(at), at, ttl_days),
{
    assert((ttl_days * 86400 + 1) * NANOS > 0) by (nonlinear_arith)
        requires
            ttl_days >= 0,
            NANOS == 1_000_000_000,
    ;
}

/// What was fetched is fetched again once the days are over, to the second; what
/// has no time is always fetched.
pub proof fn mapping_is_refetched_when_the_days_are_over(at: Instant, now: Instant, ttl_days: u64)
    requires
        at.1 < 1_000_000_000,
        now.1 < 1_000_000_000,
    ensures
        out_of_date(Some(at), now, ttl_days) <==> (now.0 - at.0) * 1_000_000_000 + now.1 - at.1
            >= (ttl_days * 86400 + 1) * 1_000_000_000,
        out_of_date(None, now, ttl_days),
{
}

/// A time is read with its zone where it has one, else as it stands.
pub proof fn times_are_read_with_their_zone(s: Seq<char>)
    ensures
        rfc3339_instant(s) is Some ==> instant_of(s) == rfc3339_instant(s),
        rfc3339_instant(s) is None ==> instant_of(s) == plain_instant(s),
{
}

} // verus!
