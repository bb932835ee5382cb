//! One round of the detection pipeline on a frame: which tamper finding is
//! reported, when person detection runs, and the events the round reports.
use vstd::prelude::*;
use crate::types::{DetectionKind, TamperKind};

verus! {

/// The tamper finding of a round: a brightness finding on the frame replaces a
/// feed-loss finding, which is reported where there is no brightness finding.
pub fn tamper_outcome(feed_loss: Option<TamperKind>, brightness: Option<TamperKind>) -> (r: Option<
    TamperKind,
>)
    ensures
        r == if brightness is Some {
            brightness
        } else {
            feed_loss
        },
{
    match brightness {
        Some(k) => Some(k),
        None => feed_loss,
    }
}

/// Whether a frame is examined (brightness, motion): it arrived and is not empty.
pub fn examines_frame(frame_available: bool, frame_len: usize) -> (r: bool)
    ensures
        r == (frame_available && frame_len > 0),
{
    frame_available && frame_len > 0
}

/// Whether person detection runs on a frame: motion fired on it, and person
/// detection is on with its model loaded.
pub fn runs_person_detection(motion_fired: bool, person_enabled: bool, model_loaded: bool) -> (r:
    bool)
    ensures
        r == (motion_fired && person_enabled && model_loaded),
{
    motion_fired && person_enabled && model_loaded
}

/// What one round of the pipeline found.
#[derive(Clone, Copy, Debug, PartialEq, Eq, Structural)]
pub struct DetectionResults {
    pub motion: bool,
    pub person: bool,
    pub tamper: Option<TamperKind>,
    pub motion_active: bool,
    pub person_active: bool,
}

/// The events a round reports, in order: tamper, motion, person.
pub open spec fn events_spec(r: DetectionResults) -> Seq<DetectionKind> {
    (if r.tamper is Some {
        seq![DetectionKind::Tamper]
    } else {
        Seq::empty()
    }) + (if r.motion {
        seq![DetectionKind::Motion]
    } else {
        Seq::empty()
    }) + (if r.person {
        seq![DetectionKind::Person]
    } else {
        Seq::empty()
    })
}

/// The findings of one round on a frame. The brightness, motion and person
/// findings count only where the frame was examined; a person only where motion
/// fired and person detection ran (on, with its model loaded).
pub open spec fn round_spec(
    feed_loss: Option<TamperKind>,
    examined: bool,
    brightness: Option<TamperKind>,
    motion_fired: bool,
    person_enabled: bool,
    model_loaded: bool,
    person_found: bool,
    motion_active: bool,
    person_active: bool,
) -> DetectionResults {
    let motion = examined && motion_fired;
    DetectionResults {
        motion,
        person: motion && person_enabled && model_loaded && person_found,
        tamper: if examined && brightness is Some {
            brightness
        } else {
            feed_loss
        },
        motion_active,
        person_active,
    }
}

/// Puts together what one round found.
pub fn round_results(
    feed_loss: Option<TamperKind>,
    examined: bool,
    brightness: Option<TamperKind>,
    motion_fired: bool,
    person_enabled: bool,
    model_loaded: bool,
    person_found: bool,
    motion_active: bool,
    person_active: bool,
) -> (r: DetectionResults)
    ensures
        r == round_spec(
            feed_loss,
            examined,
            brightness,
            motion_fired,
            person_enabled,
            model_loaded,
            person_found,
            motion_active,
            person_active,
        ),
{
    let motion = examined && motion_fired;
    let person = motion && runs_person_detection(motion_fired, person_enabled, model_loaded)
        && person_found;
    let tamper = if examined {
        tamper_outcome(feed_loss, brightness)
    } else {
        feed_loss
    };
    DetectionResults { motion, person, tamper, motion_active, person_active }
}

/// In a round on a frame that did not arrive or is empty, neither motion nor a
/// person is reported and the only tamper finding is the feed check's; in every
/// round, a person is reported only together with motion.
pub proof fn lemma_round(
    feed_loss: Option<TamperKind>,
    examined: bool,
    brightness: Option<TamperKind>,
    motion_fired: bool,
    person_enabled: bool,
    model_loaded: bool,
    person_found: bool,
    motion_active: bool,
    person_active: bool,
)
    ensures
        ({
            let r = round_spec(
                feed_loss,
                examined,
                brightness,
                motion_fired,
                person_enabled,
                model_loaded,
                person_found,
                motion_active,
                person_active,
            );
            &&& !examined ==> !r.motion && !r.person && r.tamper == feed_loss
            &&& r.person ==> r.motion
        }),
{
}

impl DetectionResults {
    /// Whether the round found anything.
    pub fn has_events(&self) -> (r: bool)
        ensures
            r == (self.motion || self.person || self.tamper is Some),
            r == (events_spec(*self).len() > 0),
    {
        self.motion || self.person || self.tamper.is_some()
    }

    /// The kinds of the events found, tamper first, then motion, then person.
    pub fn all_events(&self) -> (r: Vec<DetectionKind>)
        ensures
            r@ == events_spec(*self),
    {
        let mut v: Vec<DetectionKind> = Vec::new();
        if self.tamper.is_some() {
            v.push(DetectionKind::Tamper);
        }
        if self.motion {
            v.push(DetectionKind::Motion);
        }
        if self.person {
            v.push(DetectionKind::Person);
        }
        assert(v@ =~= events_spec(*self));
        v
    }
}

} // verus!
