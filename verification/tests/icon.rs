use monitor_switcher::icon::{draw, Pixels, Status, SIZE};

fn opaque_pixels(px: &Pixels) -> usize {
    px.chunks(4).filter(|p| p[3] != 0).count()
}

#[test]
fn every_status_draws_something() {
    for status in [Status::Ready, Status::Working, Status::Problem] {
        let drawn = draw(status);
        let lit = opaque_pixels(&drawn);
        assert!(lit > 100, "{status:?} drew only {lit} pixels");
        assert!(lit < SIZE * SIZE, "{status:?} filled the whole square");
    }
}

/// The point of the marks: two states must not be one recolour apart, or they are
/// indistinguishable to anyone who cannot separate the colours.
#[test]
fn the_states_differ_in_shape_not_only_colour() {
    let shape = |s| -> Vec<bool> {
        draw(s)
            .chunks(4)
            .map(|p| p[3] != 0)
            .collect()
    };
    let ready = shape(Status::Ready);
    let working = shape(Status::Working);
    let problem = shape(Status::Problem);
    assert_ne!(ready, working);
    assert_ne!(ready, problem);
    assert_ne!(working, problem);
}

#[test]
fn nothing_is_drawn_outside_the_icon() {
    for status in [Status::Ready, Status::Working, Status::Problem] {
        assert_eq!(draw(status).len(), SIZE * SIZE * 4);
    }
}

#[test]
fn each_status_has_its_own_colour_in_the_middle_of_the_screen() {
    let at = |s, x: usize, y: usize| -> [u8; 4] {
        let px = draw(s);
        let i = (y * SIZE + x) * 4;
        [px[i], px[i + 1], px[i + 2], px[i + 3]]
    };
    let colours = [
        at(Status::Ready, 5, 10),
        at(Status::Working, 5, 10),
        at(Status::Problem, 5, 10),
    ];
    for c in colours {
        assert_eq!(c[3], 255);
    }
    assert_ne!(colours[0], colours[1]);
    assert_ne!(colours[0], colours[2]);
    assert_ne!(colours[1], colours[2]);
    assert_eq!(at(Status::Ready, 0, 0), [0, 0, 0, 0]);
}

#[test]
fn a_status_knows_its_place() {
    assert_eq!(Status::default(), Status::Ready);
    assert_eq!(
        [Status::Ready.index(), Status::Working.index(), Status::Problem.index()],
        [0, 1, 2]
    );
}
