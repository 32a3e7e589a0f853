//! Translating a client's transition choice into the canonical
//! descriptor the external renderer consumes.
use vstd::prelude::*;
use crate::cli::Img;
use crate::cli::TransitionType;

verus! {

/// The transition families the external renderer implements.
#[derive(Clone, Copy, PartialEq, Eq, Structural, Debug)]
pub enum TransitionKind {
    Simple,
    Fade,
    Wipe,
    Outer,
    Grow,
    Wave,
}

/// How the transition's angle is fixed: kept as the client gave it,
/// forced by a directional shortcut, or drawn at random.
#[derive(Clone, Copy, PartialEq, Eq, Structural, Debug)]
pub enum AnglePlan {
    AsGiven,
    Fixed(u16),
    Random,
}

/// How the transition's center position is fixed: kept as the client
/// gave it, forced to the middle of the output, or drawn at random.
#[derive(Clone, Copy, PartialEq, Eq, Structural, Debug)]
pub enum PosPlan {
    AsGiven,
    Center,
    Random,
}

/// The canonical transition descriptor: which renderer family runs,
/// how fast it approaches the new image, and how angle and position
/// are determined.
#[derive(Clone, Copy, PartialEq, Eq, Structural, Debug)]
pub struct Transition {
    pub kind: TransitionKind,
    pub step: u8,
    pub fps: u8,
    pub angle: AnglePlan,
    pub pos: PosPlan,
}

/// Relies on rand::random: draws a value from the standard
/// distribution; nothing is promised of the outcome.
pub assume_specification<T>[ rand::random::<T> ]() -> (r: T)
    where
        rand::distr::StandardUniform: rand::distr::Distribution<T>,
;

/// Turn a client's transition choice into the canonical descriptor.
/// Directional shortcuts fix the angle and reduce to a wipe; the
/// centered shortcut fixes the position and reduces to a grow; turning
/// transitions off forces the step to its maximum so the renderer shows
/// the final frame immediately; randomized modes draw the open choices
/// at call time.
pub fn make_transition(img: &Img) -> (t: Transition)
    ensures
        t.fps == img.transition_fps,
        img.transition_type != TransitionType::Off ==> t.step == img.transition_step,
        img.transition_type == TransitionType::Off ==> t == (Transition {
            kind: TransitionKind::Simple,
            step: 255u8,
            fps: img.transition_fps,
            angle: AnglePlan::AsGiven,
            pos: PosPlan::AsGiven,
        }),
        img.transition_type == TransitionType::Simple ==> t.kind == TransitionKind::Simple
            && t.angle == AnglePlan::AsGiven && t.pos == PosPlan::AsGiven,
        img.transition_type == TransitionType::Fade ==> t.kind == TransitionKind::Fade && t.angle
            == AnglePlan::AsGiven && t.pos == PosPlan::AsGiven,
        img.transition_type == TransitionType::Wipe ==> t.kind == TransitionKind::Wipe && t.angle
            == AnglePlan::AsGiven && t.pos == PosPlan::AsGiven,
        img.transition_type == TransitionType::Outer ==> t.kind == TransitionKind::Outer
            && t.angle == AnglePlan::AsGiven && t.pos == PosPlan::AsGiven,
        img.transition_type == TransitionType::Grow ==> t.kind == TransitionKind::Grow && t.angle
            == AnglePlan::AsGiven && t.pos == PosPlan::AsGiven,
        img.transition_type == TransitionType::Wave ==> t.kind == TransitionKind::Wave && t.angle
            == AnglePlan::AsGiven && t.pos == PosPlan::AsGiven,
        img.transition_type == TransitionType::Right ==> t.kind == TransitionKind::Wipe
            && t.angle == AnglePlan::Fixed(0u16) && t.pos == PosPlan::AsGiven,
        img.transition_type == TransitionType::Top ==> t.kind == TransitionKind::Wipe && t.angle
            == AnglePlan::Fixed(90u16) && t.pos == PosPlan::AsGiven,
        img.transition_type == TransitionType::Left ==> t.kind == TransitionKind::Wipe && t.angle
            == AnglePlan::Fixed(180u16) && t.pos == PosPlan::AsGiven,
        img.transition_type == TransitionType::Bottom ==> t.kind == TransitionKind::Wipe
            && t.angle == AnglePlan::Fixed(270u16) && t.pos == PosPlan::AsGiven,
        img.transition_type == TransitionType::Center ==> t.kind == TransitionKind::Grow
            && t.angle == AnglePlan::AsGiven && t.pos == PosPlan::Center,
        img.transition_type == TransitionType::Any ==> (t.kind == TransitionKind::Grow || t.kind
            == TransitionKind::Outer) && t.angle == AnglePlan::AsGiven && t.pos == PosPlan::Random,
        img.transition_type == TransitionType::Random ==> (t.kind == TransitionKind::Simple
            || t.kind == TransitionKind::Wipe || t.kind == TransitionKind::Outer || t.kind
            == TransitionKind::Grow) && t.angle == AnglePlan::Random && t.pos == PosPlan::Random,
{
    let mut step = img.transition_step;
    let mut angle = AnglePlan::AsGiven;
    let mut pos = PosPlan::AsGiven;
    let kind = match img.transition_type {
        TransitionType::Off => {
            step = 255;
            TransitionKind::Simple
        },
        TransitionType::Simple => TransitionKind::Simple,
        TransitionType::Fade => TransitionKind::Fade,
        TransitionType::Wipe => TransitionKind::Wipe,
        TransitionType::Outer => TransitionKind::Outer,
        TransitionType::Grow => TransitionKind::Grow,
        TransitionType::Wave => TransitionKind::Wave,
        TransitionType::Right => {
            angle = AnglePlan::Fixed(0);
            TransitionKind::Wipe
        },
        TransitionType::Top => {
            angle = AnglePlan::Fixed(90);
            TransitionKind::Wipe
        },
        TransitionType::Left => {
            angle = AnglePlan::Fixed(180);
            TransitionKind::Wipe
        },
        TransitionType::Bottom => {
            angle = AnglePlan::Fixed(270);
            TransitionKind::Wipe
        },
        TransitionType::Center => {
            pos = PosPlan::Center;
            TransitionKind::Grow
        },
        TransitionType::Any => {
            pos = PosPlan::Random;
            if rand::random::<u8>() % 2 == 0 {
                TransitionKind::Grow
            } else {
                TransitionKind::Outer
            }
        },
        TransitionType::Random => {
            pos = PosPlan::Random;
            angle = AnglePlan::Random;
            match rand::random::<u8>() % 4 {
                0 => TransitionKind::Simple,
                1 => TransitionKind::Wipe,
                2 => TransitionKind::Outer,
                _ => TransitionKind::Grow,
            }
        },
    };
    Transition { kind, step, fps: img.transition_fps, angle, pos }
}

} // verus!
