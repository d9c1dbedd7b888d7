//! Glucose samples, treatments and the reconciler that turns raw samples into
//! a clean, windowed, duplicate-free timeline.
use vstd::prelude::*;
use crate::clock::{chrono_millis_ok, millis_representable, parse_rfc3339_millis, rfc3339_millis};
use crate::text::{decimal_of, decimal_text, starts_with, str_eq};

verus! {

/// Errors of the timeline reconciler.
#[derive(Clone, Copy, Debug, PartialEq, Eq, Structural)]
pub enum NightscoutError {
    /// No sample survives windowing and deduplication.
    NoEntries,
    /// A sample lacks the data a step needs.
    MissingData,
}

/// One glucose reading. Glucose values are in hundredths of mg/dL.
#[derive(Debug, PartialEq)]
pub struct Entry {
    pub id: Option<String>,
    /// Sensor glucose, hundredths of mg/dL.
    pub sgv: u32,
    pub direction: Option<String>,
    pub entry_type: Option<String>,
    pub date_string: Option<String>,
    /// Milliseconds since the epoch.
    pub date: Option<u64>,
    /// Milliseconds since the epoch, used where `date` is absent.
    pub mills: Option<u64>,
    /// Meter (finger stick) glucose, hundredths of mg/dL.
    pub mbg: Option<u32>,
}

fn clone_opt_string(s: &Option<String>) -> (r: Option<String>)
    ensures
        r == *s,
{
    match s {
        Some(x) => Some(x.clone()),
        None => None,
    }
}

impl Clone for Entry {
    fn clone(&self) -> (r: Self)
        ensures
            r == *self,
    {
        Entry {
            id: clone_opt_string(&self.id),
            sgv: self.sgv,
            direction: clone_opt_string(&self.direction),
            entry_type: clone_opt_string(&self.entry_type),
            date_string: clone_opt_string(&self.date_string),
            date: self.date,
            mills: self.mills,
            mbg: self.mbg,
        }
    }
}

/// The raw millisecond timestamp of a sample: `date`, else `mills`.
pub open spec fn raw_millis(e: Entry) -> Option<u64> {
    match e.date {
        Some(d) => Some(d),
        None => e.mills,
    }
}

/// The instant of a sample in milliseconds: its raw timestamp where chrono can
/// represent it, else its parsed date string, else `now`.
pub open spec fn instant_of(e: Entry, now: int) -> int {
    match raw_millis(e) {
        Some(ms) => if ms <= i64::MAX && chrono_millis_ok(ms as i64) {
            ms as int
        } else {
            now
        },
        None => match e.date_string {
            Some(s) => match rfc3339_millis(s@) {
                Some(m) => m as int,
                None => now,
            },
            None => now,
        },
    }
}

impl Entry {
    /// Milliseconds since the epoch at which this sample was taken; `now_ms`
    /// stands in where the sample carries no usable time.
    pub fn instant_millis(&self, now_ms: i64) -> (r: i64)
        ensures
            r == instant_of(*self, now_ms as int),
    {
        let raw = match self.date {
            Some(d) => Some(d),
            None => self.mills,
        };
        match raw {
            Some(ms) => {
                if ms <= i64::MAX as u64 && millis_representable(ms as i64) {
                    ms as i64
                } else {
                    now_ms
                }
            },
            None => match &self.date_string {
                Some(s) => match parse_rfc3339_millis(s.as_str()) {
                    Some(m) => m,
                    None => now_ms,
                },
                None => now_ms,
            },
        }
    }
}


/// How a request to the data source authenticates.
#[derive(Debug)]
pub enum AuthMethod {
    ApiSecret(String),
    Bearer(String),
}

impl AuthMethod {
    /// A token that looks like a JWT (starts with `eyJ`) is sent as a bearer
    /// token, anything else as an API secret.
    pub fn from_token(token: &str) -> (r: Self)
        ensures
            match r {
                AuthMethod::Bearer(t) => t@ == token@ && token@.len() >= 3 && token@.subrange(0, 3) == "eyJ"@,
                AuthMethod::ApiSecret(t) => t@ == token@ && !(token@.len() >= 3 && token@.subrange(0, 3)
                    == "eyJ"@),
            },
    {
        proof {
            reveal_strlit("eyJ");
        }
        let bearer = starts_with(token, "eyJ");
        if bearer {
            AuthMethod::Bearer(String::from_str(token))
        } else {
            AuthMethod::ApiSecret(String::from_str(token))
        }
    }

    pub fn description(&self) -> (r: &'static str)
        ensures
            r@ == match self {
                AuthMethod::ApiSecret(_) => "API-SECRET header"@,
                AuthMethod::Bearer(_) => "Bearer token"@,
            },
    {
        match self {
            AuthMethod::ApiSecret(_) => "API-SECRET header",
            AuthMethod::Bearer(_) => "Bearer token",
        }
    }
}

/// A token handed out by the data source's authorization endpoint.
#[derive(Debug)]
pub struct JwtResponse {
    pub token: String,
    pub exp: i64,
}

/// Direction in which glucose is moving.
#[derive(Clone, Copy, Debug, PartialEq, Eq, Structural)]
pub enum Trend {
    DoubleUp,
    SingleUp,
    FortyFiveUp,
    Flat,
    FortyFiveDown,
    SingleDown,
    DoubleDown,
    Else,
}

/// The trend a direction name stands for; unknown names give `Else`.
pub open spec fn trend_of(s: Seq<char>) -> Trend {
    if s == "DoubleUp"@ {
        Trend::DoubleUp
    } else if s == "SingleUp"@ {
        Trend::SingleUp
    } else if s == "FortyFiveUp"@ {
        Trend::FortyFiveUp
    } else if s == "Flat"@ {
        Trend::Flat
    } else if s == "FortyFiveDown"@ {
        Trend::FortyFiveDown
    } else if s == "SingleDown"@ {
        Trend::SingleDown
    } else if s == "DoubleDown"@ {
        Trend::DoubleDown
    } else {
        Trend::Else
    }
}

/// The arrow drawn for a trend.
pub open spec fn arrow_of(t: Trend) -> Seq<char> {
    match t {
        Trend::DoubleUp => "↑↑"@,
        Trend::SingleUp => "↑"@,
        Trend::FortyFiveUp => "↗"@,
        Trend::Flat => "→"@,
        Trend::FortyFiveDown => "↘"@,
        Trend::SingleDown => "↓"@,
        Trend::DoubleDown => "↓↓"@,
        Trend::Else => "↮"@,
    }
}

impl Trend {
    pub fn as_arrow(&self) -> (r: &'static str)
        ensures
            r@ == arrow_of(*self),
    {
        match self {
            Trend::DoubleUp => "↑↑",
            Trend::SingleUp => "↑",
            Trend::FortyFiveUp => "↗",
            Trend::Flat => "→",
            Trend::FortyFiveDown => "↘",
            Trend::SingleDown => "↓",
            Trend::DoubleDown => "↓↓",
            Trend::Else => "↮",
        }
    }

    /// The trend a direction name stands for; see `trend_of`.
    pub fn from_direction(direction: &str) -> (r: Self)
        ensures
            r == trend_of(direction@),
    {
        if str_eq(direction, "DoubleUp") {
            Trend::DoubleUp
        } else if str_eq(direction, "SingleUp") {
            Trend::SingleUp
        } else if str_eq(direction, "FortyFiveUp") {
            Trend::FortyFiveUp
        } else if str_eq(direction, "Flat") {
            Trend::Flat
        } else if str_eq(direction, "FortyFiveDown") {
            Trend::FortyFiveDown
        } else if str_eq(direction, "SingleDown") {
            Trend::SingleDown
        } else if str_eq(direction, "DoubleDown") {
            Trend::DoubleDown
        } else {
            Trend::Else
        }
    }
}

impl<'a> From<&'a str> for Trend {
    fn from(direction: &'a str) -> (r: Self) {
        Trend::from_direction(direction)
    }
}

impl<'a> vstd::std_specs::convert::FromSpecImpl<&'a str> for Trend {
    open spec fn obeys_from_spec() -> bool {
        true
    }

    open spec fn from_spec(v: &'a str) -> Self {
        trend_of(v@)
    }
}

/// Change between two readings, hundredths of mg/dL.
#[derive(Clone, Copy, Debug, PartialEq, Eq, Structural)]
pub struct Delta {
    pub value: i64,
}

/// Digits after the point of a fraction given in hundredths, trailing zeros
/// dropped: nothing for none.
pub open spec fn fraction_text(f: int) -> Seq<char> {
    if f == 0 {
        Seq::empty()
    } else if f % 10 == 0 {
        "."@ + decimal_of((f / 10) as nat)
    } else if f < 10 {
        ".0"@ + decimal_of(f as nat)
    } else {
        "."@ + decimal_of(f as nat)
    }
}

/// A value in hundredths as signed decimal text: `+5`, `-3.2`, `+0.25`.
pub open spec fn signed_text(h: int) -> Seq<char> {
    let a = if h >= 0 {
        h
    } else {
        -h
    };
    (if h >= 0 {
        "+"@
    } else {
        "-"@
    }) + decimal_of((a / 100) as nat) + fraction_text(a % 100)
}

/// `v` hundredths of mg/dL in tenths of mmol/L (18 mg/dL to the mmol/L),
/// rounded half away from zero.
pub open spec fn mmol_tenths(v: int) -> int {
    if v >= 0 {
        (v + 90) / 180
    } else {
        -((-v + 90) / 180)
    }
}

impl Delta {
    /// The change in tenths of mmol/L.
    pub fn as_mmol(&self) -> (r: i64)
        ensures
            r == mmol_tenths(self.value as int),
    {
        let v = self.value as i128;
        let t: i128 = if v >= 0 {
            (v + 90) / 180
        } else {
            -((-v + 90) / 180)
        };
        t as i64
    }

    /// The change with its sign, in mg/dL: `+5`, `-3.2`, `+0`.
    pub fn as_signed_str(&self) -> (r: String)
        ensures
            r@ == signed_text(self.value as int),
    {
        let a: u64 = if self.value >= 0 {
            self.value as u64
        } else {
            (-(self.value as i128)) as u64
        };
        let mut s = if self.value >= 0 {
            String::from_str("+")
        } else {
            String::from_str("-")
        };
        s.append(decimal_text(a / 100).as_str());
        let f = a % 100;
        if f != 0 {
            if f % 10 == 0 {
                s.append(".");
                s.append(decimal_text(f / 10).as_str());
            } else if f < 10 {
                s.append(".0");
                s.append(decimal_text(f).as_str());
            } else {
                s.append(".");
                s.append(decimal_text(f).as_str());
            }
        }
        s
    }
}

impl Entry {
    /// The trend named by the sample's direction, `Else` where it has none.
    pub fn trend(&self) -> (r: Trend)
        ensures
            r == match self.direction {
                Some(d) => trend_of(d@),
                None => Trend::Else,
            },
    {
        match &self.direction {
            Some(d) => Trend::from_direction(d.as_str()),
            None => Trend::Else,
        }
    }

    /// The sensor value in tenths of mmol/L.
    pub fn svg_as_mmol(&self) -> (r: u32)
        ensures
            r == mmol_tenths(self.sgv as int),
    {
        ((self.sgv as u64 + 90) / 180) as u32
    }

    /// This reading minus an older one.
    pub fn get_delta(&self, old_entry: &Entry) -> (r: Delta)
        ensures
            r.value == self.sgv - old_entry.sgv,
    {
        Delta { value: self.sgv as i64 - old_entry.sgv as i64 }
    }

    /// The sample carries a meter reading above zero.
    pub fn has_mbg(&self) -> (r: bool)
        ensures
            r == (match self.mbg {
                Some(v) => v > 0,
                None => false,
            }),
    {
        match self.mbg {
            Some(v) => v > 0,
            None => false,
        }
    }
}

/// An insulin dose, carbohydrate intake or finger-stick check.
#[derive(Debug, PartialEq)]
pub struct Treatment {
    pub id: Option<String>,
    pub event_type: Option<String>,
    /// RFC 3339 time of the event.
    pub created_at: Option<String>,
    /// Finger-stick glucose, hundredths of mg/dL.
    pub glucose: Option<u64>,
    pub glucose_type: Option<String>,
    /// Hundredths of a gram.
    pub carbs: Option<u64>,
    /// Hundredths of a unit.
    pub insulin: Option<u64>,
    pub units: Option<String>,
    pub date: Option<u64>,
    pub mills: Option<u64>,
    /// `SMB` marks an automated micro-dose.
    pub type_: Option<String>,
}

impl Treatment {
    pub fn is_insulin(&self) -> (r: bool)
        ensures
            r == (match self.insulin {
                Some(v) => v > 0,
                None => false,
            }),
    {
        match self.insulin {
            Some(v) => v > 0,
            None => false,
        }
    }

    pub fn is_carbs(&self) -> (r: bool)
        ensures
            r == (match self.carbs {
                Some(v) => v > 0,
                None => false,
            }),
    {
        match self.carbs {
            Some(v) => v > 0,
            None => false,
        }
    }

    /// A finger-stick check: a glucose value taken by `Finger`.
    pub fn is_glucose_reading(&self) -> (r: bool)
        ensures
            r == (self.glucose is Some && match self.glucose_type {
                Some(t) => t@ == "Finger"@,
                None => false,
            }),
    {
        self.glucose.is_some() && match &self.glucose_type {
            Some(t) => str_eq(t.as_str(), "Finger"),
            None => false,
        }
    }
}

/// One named profile of the data source.
#[derive(Debug)]
pub struct ProfileStore {
    pub timezone: String,
    pub units: Option<String>,
    /// Low threshold, hundredths of mg/dL.
    pub target_low: Option<u64>,
    /// High threshold, hundredths of mg/dL.
    pub target_high: Option<u64>,
}

/// The profiles of the data source and the name of the default one.
#[derive(Debug)]
pub struct Profile {
    pub default_profile: String,
    /// Named profiles; the first of a name counts.
    pub store: Vec<(String, ProfileStore)>,
}

/// Position of the first profile named `name`, or -1.
pub open spec fn store_index(store: Seq<(String, ProfileStore)>, name: Seq<char>) -> int
    decreases store.len(),
{
    if store.len() == 0 {
        -1
    } else {
        let i = store_index(store.drop_last(), name);
        if i >= 0 {
            i
        } else if store.last().0@ == name {
            store.len() - 1
        } else {
            -1
        }
    }
}

impl Profile {
    /// The default profile, `None` where the store lacks it.
    pub fn default_store(&self) -> (r: Option<&ProfileStore>)
        ensures
            match r {
                Some(s) => store_index(self.store@, self.default_profile@) >= 0 && *s == self.store@[store_index(
                    self.store@,
                    self.default_profile@,
                )].1,
                None => store_index(self.store@, self.default_profile@) == -1,
            },
    {
        let mut i: usize = 0;
        while i < self.store.len()
            invariant
                i <= self.store@.len(),
                store_index(self.store@.subrange(0, i as int), self.default_profile@) == -1,
            decreases self.store@.len() - i,
        {
            proof {
                assert(self.store@.subrange(0, i + 1).drop_last() =~= self.store@.subrange(0, i as int));
            }
            if str_eq(self.store[i].0.as_str(), self.default_profile.as_str()) {
                proof {
                    lemma_store_index_prefix(self.store@, i as int + 1, self.default_profile@);
                }
                return Some(&self.store[i].1);
            }
            i += 1;
        }
        assert(self.store@.subrange(0, self.store@.len() as int) =~= self.store@);
        None
    }
}

proof fn lemma_store_index_prefix(store: Seq<(String, ProfileStore)>, n: int, name: Seq<char>)
    requires
        0 < n <= store.len(),
        store_index(store.subrange(0, n), name) >= 0,
    ensures
        store_index(store, name) == store_index(store.subrange(0, n), name),
    decreases store.len(),
{
    if n < store.len() {
        assert(store.drop_last().subrange(0, n) =~= store.subrange(0, n));
        lemma_store_index_prefix(store.drop_last(), n, name);
    } else {
        assert(store.subrange(0, n) =~= store);
    }
}

/// Which samples a request to the data source asks for.
#[derive(Clone, Copy, Debug, PartialEq, Eq, Structural)]
pub struct NightscoutRequestOptions {
    pub count: Option<u16>,
    pub hours_back: Option<u16>,
}

impl Default for NightscoutRequestOptions {
    fn default() -> (r: Self)
        ensures
            r.count is None && r.hours_back is None,
    {
        NightscoutRequestOptions { count: None, hours_back: None }
    }
}

impl NightscoutRequestOptions {
    /// Sets how many samples are fetched.
    pub fn count(self, count: u16) -> (r: Self)
        ensures
            r.count == Some(count),
            r.hours_back == self.hours_back,
    {
        NightscoutRequestOptions { count: Some(count), ..self }
    }

    /// Sets how many hours back from now samples are fetched.
    pub fn hours_back(self, hours: u16) -> (r: Self)
        ensures
            r.hours_back == Some(hours),
            r.count == self.count,
    {
        NightscoutRequestOptions { hours_back: Some(hours), ..self }
    }
}

} // verus!
