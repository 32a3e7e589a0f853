use swww::cli::{Clear, Filter, Img, ResizeStrategy, Swww, TransitionType};
use swww::codec::encode;
use swww::daemon::{Daemon, RenderEvent};
use swww::daemon::dispatch::render_reply;
use swww::imgproc::RawImg;

fn configured(names_dims: &[(&str, u32, u32)]) -> Daemon {
    let mut d = Daemon::new();
    for (n, w, h) in names_dims {
        assert!(d.register(n.to_string()));
        assert!(d.set_pending(
            n,
            RenderEvent::Configure {
                width: *w,
                height: *h
            }
        ));
    }
    let removed = d.reconcile();
    assert!(removed.is_empty());
    d
}

fn names(v: &Vec<String>) -> Vec<&str> {
    v.iter().map(|s| s.as_str()).collect()
}

#[test]
fn find_targets_empty_spec_returns_every_name() {
    let d = configured(&[("a", 1, 1), ("b", 2, 2)]);
    let t = d.find_targets("");
    assert_eq!(names(&t), vec!["a", "b"]);
}

#[test]
fn find_targets_skips_unknown_and_deduplicates() {
    let d = configured(&[("a", 1, 1)]);
    let t = d.find_targets("a,a,x");
    assert_eq!(names(&t), vec!["a"]);
}

#[test]
fn grouping_coalesces_equal_state_outputs() {
    // a and b share dimensions and image identity, c differs:
    // exactly the jobs {a, b} and {c}
    let d = configured(&[("a", 1, 1), ("b", 1, 1), ("c", 2, 2)]);
    let groups = d.group_targets(d.find_targets(""));
    assert_eq!(groups.len(), 2);
    let mut pair = None;
    let mut single = None;
    for g in &groups {
        match g.names.len() {
            2 => pair = Some(g),
            1 => single = Some(g),
            n => panic!("unexpected group size {}", n),
        }
    }
    let pair = pair.expect("no pair job");
    let single = single.expect("no singleton job");
    let mut pair_names = names(&pair.names);
    pair_names.sort();
    assert_eq!(pair_names, vec!["a", "b"]);
    assert_eq!(names(&single.names), vec!["c"]);
    assert_eq!((pair.width, pair.height), (1, 1));
    assert_eq!((single.width, single.height), (2, 2));
}

#[test]
fn clear_paints_each_output_in_its_own_size() {
    // two differently sized outputs: two distinct jobs, each a solid
    // black buffer of its own output's dimensions, and Query still
    // reports the original dimensions
    let mut d = configured(&[("a", 2, 1), ("b", 1, 1)]);
    let clear = Clear {
        color: [0, 0, 0],
        outputs: String::new(),
    };
    let r = d.handle_clear(&clear);
    assert!(r.is_ok());
    assert_eq!(d.outputs[0].buffer, vec![0, 0, 0, 255, 0, 0, 0, 255]);
    assert_eq!(d.outputs[1].buffer, vec![0, 0, 0, 255]);
    assert!(d.outputs[0].img.is_none());
    assert_eq!(
        d.query_reply(),
        "a - Dimensions: 2x1\nb - Dimensions: 1x1\n"
    );
}

#[test]
fn clear_without_valid_outputs_is_an_error() {
    let mut d = configured(&[("a", 1, 1)]);
    let clear = Clear {
        color: [0, 0, 0],
        outputs: "nosuch".to_string(),
    };
    let r = d.handle_clear(&clear);
    assert!(r.is_err());
    assert_eq!(d.outputs[0].buffer, vec![0u8; 4]);
}

#[test]
fn closed_discards_a_queued_configure() {
    // Configure queued first, Closed arrives in the same tick: the
    // output is destroyed and the Configure is never applied
    let mut d = Daemon::new();
    d.register("a".to_string());
    d.set_pending(
        "a",
        RenderEvent::Configure {
            width: 5,
            height: 5,
        },
    );
    d.set_pending("a", RenderEvent::Closed);
    let removed = d.reconcile();
    assert_eq!(names(&removed), vec!["a"]);
    assert!(d.outputs.is_empty());
}

#[test]
fn configure_cannot_displace_a_queued_closed() {
    let mut d = Daemon::new();
    d.register("a".to_string());
    d.set_pending("a", RenderEvent::Closed);
    d.set_pending(
        "a",
        RenderEvent::Configure {
            width: 5,
            height: 5,
        },
    );
    let removed = d.reconcile();
    assert_eq!(names(&removed), vec!["a"]);
    assert!(d.outputs.is_empty());
}

#[test]
fn configure_resizes_the_pool() {
    let mut d = Daemon::new();
    d.register("a".to_string());
    d.set_pending(
        "a",
        RenderEvent::Configure {
            width: 2,
            height: 2,
        },
    );
    let removed = d.reconcile();
    assert!(removed.is_empty());
    assert_eq!((d.outputs[0].width, d.outputs[0].height), (2, 2));
    assert_eq!(d.outputs[0].buffer.len(), 16);
}

#[test]
fn unregister_removes_the_output() {
    let mut d = configured(&[("a", 1, 1), ("b", 1, 1)]);
    assert!(d.unregister("a"));
    assert!(!d.unregister("a"));
    assert_eq!(d.outputs.len(), 1);
    assert_eq!(d.outputs[0].name, "b");
}

#[test]
fn img_request_paints_and_records_identity() {
    let mut d = configured(&[("a", 1, 1)]);
    let img = Img {
        path: "/tmp/wall.png".to_string(),
        outputs: String::new(),
        filter: Filter::Nearest,
        resize: ResizeStrategy::No,
        fill_color: [0, 0, 0],
        transition_type: TransitionType::Simple,
        transition_step: 20,
        transition_fps: 30,
    };
    let decoded = RawImg {
        width: 1,
        height: 1,
        pixels: vec![255, 0, 0],
    };
    let r = d.handle_img(&img, &decoded);
    assert!(r.is_ok());
    assert_eq!(d.outputs[0].buffer, vec![0, 0, 255, 255]);
    let id = d.outputs[0].img.as_ref().expect("identity not recorded");
    assert_eq!(id.path, "/tmp/wall.png");
}

#[test]
fn frame_delivery_updates_matching_outputs_in_place() {
    let mut d = configured(&[("a", 1, 1), ("b", 1, 1)]);
    let before = d.outputs[0].buffer.clone();
    let after = vec![1u8, 2, 3, 4];
    let diff = encode(&before, &after);
    d.handle_recv_frame(&vec!["a".to_string()], &diff);
    assert_eq!(d.outputs[0].buffer, after);
    assert_eq!(d.outputs[1].buffer, before, "untargeted output untouched");
}

#[test]
fn dispatch_routes_requests() {
    let mut d = configured(&[("a", 3, 1)]);
    let r = d.dispatch(&Swww::Query, None);
    assert!(!r.stop);
    assert_eq!(r.reply.unwrap(), "a - Dimensions: 3x1\n");

    let r = d.dispatch(&Swww::Init { no_daemon: true }, None);
    assert!(!r.stop);
    assert!(r.reply.is_ok());

    let r = d.dispatch(&Swww::Kill, None);
    assert!(r.stop);
    assert!(r.reply.is_ok());
}

#[test]
fn replies_carry_one_status_line_then_payload() {
    assert_eq!(render_reply(Ok("payload".to_string())), "Ok\npayload");
    assert_eq!(render_reply(Err("bad".to_string())), "Err\nbad");
    assert_eq!(render_reply(Ok(String::new())), "Ok\n");
}

#[test]
fn img_request_without_valid_outputs_is_an_error() {
    let mut d = configured(&[("a", 1, 1)]);
    let img = Img {
        path: "/tmp/wall.png".to_string(),
        outputs: "ghost".to_string(),
        filter: Filter::Nearest,
        resize: ResizeStrategy::No,
        fill_color: [0, 0, 0],
        transition_type: TransitionType::Simple,
        transition_step: 20,
        transition_fps: 30,
    };
    let decoded = RawImg {
        width: 1,
        height: 1,
        pixels: vec![255, 0, 0],
    };
    let before = d.outputs[0].buffer.clone();
    assert!(d.handle_img(&img, &decoded).is_err());
    assert_eq!(d.outputs[0].buffer, before);
}

#[test]
fn img_request_rejects_unservable_dimensions() {
    // an output that never received a Configure still has zero size,
    // which the fit strategy cannot scale to
    let mut d = Daemon::new();
    d.register("a".to_string());
    let img = Img {
        path: "/tmp/wall.png".to_string(),
        outputs: String::new(),
        filter: Filter::Nearest,
        resize: ResizeStrategy::Fit,
        fill_color: [0, 0, 0],
        transition_type: TransitionType::Simple,
        transition_step: 20,
        transition_fps: 30,
    };
    let decoded = RawImg {
        width: 1,
        height: 1,
        pixels: vec![255, 0, 0],
    };
    assert!(d.handle_img(&img, &decoded).is_err());
}

#[test]
fn register_ignores_duplicate_names() {
    let mut d = Daemon::new();
    assert!(d.register("a".to_string()));
    assert!(!d.register("a".to_string()));
    assert_eq!(d.outputs.len(), 1);
}

#[test]
fn events_for_unknown_outputs_report_not_found() {
    let mut d = Daemon::new();
    assert!(!d.set_pending("ghost", RenderEvent::Closed));
    assert!(!d.unregister("ghost"));
}

#[test]
fn query_of_empty_registry_is_empty() {
    let d = Daemon::new();
    assert_eq!(d.query_reply(), "");
}

#[test]
fn current_img_is_a_copy_of_the_buffer_once_set() {
    let mut d = configured(&[("a", 1, 1)]);
    assert!(d.outputs[0].get_current_img().is_none());
    let img = Img {
        path: "/tmp/wall.png".to_string(),
        outputs: String::new(),
        filter: Filter::Nearest,
        resize: ResizeStrategy::No,
        fill_color: [0, 0, 0],
        transition_type: TransitionType::Simple,
        transition_step: 20,
        transition_fps: 30,
    };
    let decoded = RawImg {
        width: 1,
        height: 1,
        pixels: vec![7, 8, 9],
    };
    d.handle_img(&img, &decoded).unwrap();
    assert_eq!(
        d.outputs[0].get_current_img().unwrap(),
        d.outputs[0].buffer
    );
}
