use vstd::prelude::*;
use vstd::string::StringExecFns;

verus! {

/// One palette entry as the rule evaluation consumes it: a hex rendering
/// and a share of the image in ten-thousandths of a percent
/// (1_000_000 == 100%).
#[derive(Debug)]
pub struct ColorData {
    pub hex: String,
    pub percentage: u32,
}

/// The verdict of the 60-30-10 evaluation over a palette's top three
/// entries.
#[derive(Debug)]
pub struct RuleAnalysis {
    pub dominant_hex: String,
    pub dominant_percentage: u32,
    pub secondary_hex: String,
    pub secondary_percentage: u32,
    pub accent_hex: String,
    pub accent_percentage: u32,
    pub is_balanced: bool,
    pub summary: String,
}

/// The rule: the top three shares approximate 60%, 30% and 10%, each
/// within ten percentage points.
pub open spec fn spec_balanced(p0: u32, p1: u32, p2: u32) -> bool {
    &&& 500000 <= p0 <= 700000
    &&& 200000 <= p1 <= 400000
    &&& 50000 <= p2 <= 150000
}

/// Evaluate the 60-30-10 rule against a palette already ordered by falling
/// percentage: the first three entries are taken as dominant, secondary
/// and accent, and each is held against its target band. Fails exactly
/// when fewer than three colors are given.
pub fn analyze_60_30_10_rule(palette: &Vec<ColorData>) -> (r: Result<RuleAnalysis, String>)
    ensures
        r is Ok <==> palette@.len() >= 3,
        r matches Ok(a) ==> {
            &&& a.dominant_hex@ == palette@[0].hex@
            &&& a.dominant_percentage == palette@[0].percentage
            &&& a.secondary_hex@ == palette@[1].hex@
            &&& a.secondary_percentage == palette@[1].percentage
            &&& a.accent_hex@ == palette@[2].hex@
            &&& a.accent_percentage == palette@[2].percentage
            &&& a.is_balanced == spec_balanced(
                palette@[0].percentage,
                palette@[1].percentage,
                palette@[2].percentage,
            )
            &&& a.summary@ == (if a.is_balanced {
                "Well Balanced"@
            } else {
                "Unconventional Balance"@
            })
        },
        r matches Err(e) ==> e@ == "Palette must contain at least 3 colors."@,
{
    if palette.len() < 3 {
        return Err("Palette must contain at least 3 colors.".to_owned());
    }
    let dominant = &palette[0];
    let secondary = &palette[1];
    let accent = &palette[2];
    let is_balanced = 500000 <= dominant.percentage && dominant.percentage <= 700000 && 200000
        <= secondary.percentage && secondary.percentage <= 400000 && 50000 <= accent.percentage
        && accent.percentage <= 150000;
    let summary = if is_balanced {
        "Well Balanced".to_owned()
    } else {
        "Unconventional Balance".to_owned()
    };
    Ok(
        RuleAnalysis {
            dominant_hex: dominant.hex.clone(),
            dominant_percentage: dominant.percentage,
            secondary_hex: secondary.hex.clone(),
            secondary_percentage: secondary.percentage,
            accent_hex: accent.hex.clone(),
            accent_percentage: accent.percentage,
            is_balanced,
            summary,
        },
    )
}

} // verus!
