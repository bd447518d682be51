//! The survey-feedback kinds and the flat header of the feedback
//! export. Decoding the survey JSON itself lives with the embedding
//! program; this module owns the stable identifiers around it.

use vstd::prelude::*;

verus! {

/// The two user surveys a recording directory may hold.
#[derive(Debug, Clone, Copy, PartialEq, Eq, Structural)]
pub enum FeedbackType {
    Rectify,
    Backpain,
}

impl FeedbackType {
    /// The file-name prefix under which feedback of this kind is stored.
    pub fn matcher(self) -> (r: &'static str)
        ensures
            self is Rectify ==> r@ == "rectify_"@,
            self is Backpain ==> r@ == "backpain_"@,
    {
        match self {
            FeedbackType::Rectify => "rectify_",
            FeedbackType::Backpain => "backpain_",
        }
    }
}

/// Error of the survey-feedback decoding.
#[derive(Debug, Clone, Copy, PartialEq, Eq, Structural)]
pub struct FeedbackParseError;

/// The flat CSV rendering of the two surveys.
pub struct FeedbackCsv {}

impl FeedbackCsv {
    /// The column header line of the feedback export.
    pub fn get_header() -> (r: String)
        ensures
            r@
                == "shirtComfort, sensorIsMoving, shirtWearLocations, shirtWearDuration, shirtWearWeekly, rectifyDuration, appUsability, rectifyBenefit, vibrationBenefit, saturationBenefit, evaluationBenefit, miniExerciseBenefit, trainingBenefit, otherFeatureWishes, vibrationLevelPref, vibrationMissingWhen, vibrationIs, otherWishes, reductionWhileSitting, increaseWhileMoving, occuredBugs, buyRectify, rectifyPrice, rectifyPricespan, gender, age, weight, bodyHeight, backpainFrequency, ifBackpainWhere, ifBackpainWhereLR, backpainLevel, walkingPain, walkingPainLevel, painProblems, postureSelf, mobilifySelf, movementAtWork, movementFreeTime, standingDesk, sittingStandingSwitch"@,
    {
        String::from_str(
            "shirtComfort, sensorIsMoving, shirtWearLocations, shirtWearDuration, shirtWearWeekly, rectifyDuration, appUsability, rectifyBenefit, vibrationBenefit, saturationBenefit, evaluationBenefit, miniExerciseBenefit, trainingBenefit, otherFeatureWishes, vibrationLevelPref, vibrationMissingWhen, vibrationIs, otherWishes, reductionWhileSitting, increaseWhileMoving, occuredBugs, buyRectify, rectifyPrice, rectifyPricespan, gender, age, weight, bodyHeight, backpainFrequency, ifBackpainWhere, ifBackpainWhereLR, backpainLevel, walkingPain, walkingPainLevel, painProblems, postureSelf, mobilifySelf, movementAtWork, movementFreeTime, standingDesk, sittingStandingSwitch",
        )
    }
}

} // verus!
