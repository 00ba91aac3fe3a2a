use three_body::render::{
    body_color, frame_count, frame_delay_ms, frame_marker, trail_marker, Color, Marker,
};

#[test]
fn first_three_bodies_have_their_own_colours() {
    assert_eq!(body_color(0), Color::Blue);
    assert_eq!(body_color(1), Color::Red);
    assert_eq!(body_color(2), Color::Green);
    assert_eq!(body_color(3), Color::Black);
    assert_eq!(body_color(usize::MAX), Color::Black);
}

#[test]
fn first_snapshot_is_highlighted_in_the_static_plot() {
    for body in 0..5 {
        assert_eq!(trail_marker(0, body), Marker { radius: 2, color: Color::Black });
    }
    assert_eq!(trail_marker(1, 0), Marker { radius: 1, color: Color::Blue });
    assert_eq!(trail_marker(1, 1), Marker { radius: 1, color: Color::Red });
    assert_eq!(trail_marker(500, 2), Marker { radius: 1, color: Color::Green });
    assert_eq!(trail_marker(7, 3), Marker { radius: 1, color: Color::Black });
}

#[test]
fn bodies_keep_their_colour_in_every_frame() {
    assert_eq!(frame_marker(0), Marker { radius: 2, color: Color::Blue });
    assert_eq!(frame_marker(1), Marker { radius: 2, color: Color::Red });
    assert_eq!(frame_marker(2), Marker { radius: 2, color: Color::Green });
    assert_eq!(frame_marker(9), Marker { radius: 2, color: Color::Black });
}

#[test]
fn frame_delay_is_a_whole_number_of_milliseconds() {
    assert_eq!(frame_delay_ms(30), 33);
    assert_eq!(frame_delay_ms(1), 1000);
    assert_eq!(frame_delay_ms(1000), 1);
    assert_eq!(frame_delay_ms(1001), 0);
    assert_eq!(frame_delay_ms(u32::MAX), 0);
}

#[test]
fn frames_of_an_animation() {
    assert_eq!(frame_count(30, 40), 1200);
    assert_eq!(frame_count(0, 40), 0);
    assert_eq!(frame_count(u32::MAX, u32::MAX), 18_446_744_065_119_617_025);
}
