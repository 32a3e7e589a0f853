use swww::cli::{Filter, Img, ResizeStrategy, TransitionType};
use swww::imgproc::transition::{make_transition, AnglePlan, PosPlan, TransitionKind};

fn img_with(t: TransitionType) -> Img {
    Img {
        path: "/tmp/wall.png".to_string(),
        outputs: String::new(),
        filter: Filter::Lanczos3,
        resize: ResizeStrategy::Crop,
        fill_color: [0, 0, 0],
        transition_type: t,
        transition_step: 20,
        transition_fps: 30,
    }
}

#[test]
fn transition_off_forces_maximum_step() {
    let t = make_transition(&img_with(TransitionType::Off));
    assert_eq!(t.kind, TransitionKind::Simple);
    assert_eq!(t.step, 255);
    assert_eq!(t.fps, 30);
}

#[test]
fn directional_shortcuts_fix_angle_and_reduce_to_wipe() {
    let t = make_transition(&img_with(TransitionType::Right));
    assert_eq!(t.kind, TransitionKind::Wipe);
    assert_eq!(t.angle, AnglePlan::Fixed(0));

    let t = make_transition(&img_with(TransitionType::Top));
    assert_eq!(t.angle, AnglePlan::Fixed(90));

    let t = make_transition(&img_with(TransitionType::Left));
    assert_eq!(t.angle, AnglePlan::Fixed(180));

    let t = make_transition(&img_with(TransitionType::Bottom));
    assert_eq!(t.angle, AnglePlan::Fixed(270));
    assert_eq!(t.kind, TransitionKind::Wipe);
}

#[test]
fn centered_shortcut_fixes_position_and_grows() {
    let t = make_transition(&img_with(TransitionType::Center));
    assert_eq!(t.kind, TransitionKind::Grow);
    assert_eq!(t.pos, PosPlan::Center);
    assert_eq!(t.step, 20);
}

#[test]
fn plain_modes_keep_their_kind() {
    assert_eq!(
        make_transition(&img_with(TransitionType::Fade)).kind,
        TransitionKind::Fade
    );
    assert_eq!(
        make_transition(&img_with(TransitionType::Wave)).kind,
        TransitionKind::Wave
    );
    assert_eq!(
        make_transition(&img_with(TransitionType::Simple)).kind,
        TransitionKind::Simple
    );
}

#[test]
fn randomized_modes_sample_within_their_families() {
    for _ in 0..32 {
        let t = make_transition(&img_with(TransitionType::Any));
        assert!(t.kind == TransitionKind::Grow || t.kind == TransitionKind::Outer);
        assert_eq!(t.pos, PosPlan::Random);

        let t = make_transition(&img_with(TransitionType::Random));
        assert!(
            t.kind == TransitionKind::Simple
                || t.kind == TransitionKind::Wipe
                || t.kind == TransitionKind::Outer
                || t.kind == TransitionKind::Grow
        );
        assert_eq!(t.angle, AnglePlan::Random);
        assert_eq!(t.pos, PosPlan::Random);
    }
}
