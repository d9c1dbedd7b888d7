use vstd::prelude::*;

verus! {

/// Unit in which glucose values are displayed.
#[derive(Clone, Copy, Debug, PartialEq, Eq, Structural)]
pub enum PrefUnit {
    MgDl,
    Mmol,
}

/// Classification of one glucose value against the target range.
#[derive(Clone, Copy, Debug, PartialEq, Eq, Hash, Structural)]
pub enum GlucoseStatus {
    Low,
    InRange,
    High,
}

/// Category a sticker is tagged with.
#[derive(Clone, Copy, Debug, PartialEq, Eq, Hash, Structural)]
pub enum StickerCategory {
    Low,
    InRange,
    High,
    Any,
}

/// Status of a value (hundredths of mg/dL) against low and high thresholds.
pub open spec fn status_of(sgv: int, target_low: int, target_high: int) -> GlucoseStatus {
    if sgv < target_low {
        GlucoseStatus::Low
    } else if sgv > target_high {
        GlucoseStatus::High
    } else {
        GlucoseStatus::InRange
    }
}

/// Sticker category that matches a status.
pub open spec fn category_of(status: GlucoseStatus) -> StickerCategory {
    match status {
        GlucoseStatus::Low => StickerCategory::Low,
        GlucoseStatus::InRange => StickerCategory::InRange,
        GlucoseStatus::High => StickerCategory::High,
    }
}

impl GlucoseStatus {
    /// Classifies a value: below `target_low` is low, above `target_high` is high.
    pub fn from_sgv(sgv: u64, target_low: u64, target_high: u64) -> (r: Self)
        ensures
            r == status_of(sgv as int, target_low as int, target_high as int),
    {
        if sgv < target_low {
            GlucoseStatus::Low
        } else if sgv > target_high {
            GlucoseStatus::High
        } else {
            GlucoseStatus::InRange
        }
    }

    pub fn to_sticker_category(self) -> (r: StickerCategory)
        ensures
            r == category_of(self),
    {
        match self {
            GlucoseStatus::Low => StickerCategory::Low,
            GlucoseStatus::InRange => StickerCategory::InRange,
            GlucoseStatus::High => StickerCategory::High,
        }
    }
}

} // verus!

verus! {

/// A decorative image a user has uploaded.
#[derive(Debug)]
pub struct Sticker {
    pub id: i32,
    /// Local path or remote URL of the image.
    pub file_name: String,
    pub display_name: String,
    pub category: StickerCategory,
}

/// Whether some sticker of `s` carries category `c`.
pub open spec fn has_category(s: Seq<Sticker>, c: StickerCategory) -> bool {
    exists|i: int| 0 <= i < s.len() && (#[trigger] s[i]).category == c
}

/// A user's display settings.
#[derive(Debug)]
pub struct NightscoutInfo {
    pub nightscout_url: Option<String>,
    pub nightscout_token: Option<String>,
    pub allowed_people: Vec<u64>,
    pub is_private: bool,
    /// Doses up to this (hundredths of a unit) count as micro-doses.
    pub microbolus_threshold: u64,
    pub display_microbolus: bool,
}

} // verus!
