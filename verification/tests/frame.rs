use sdl_demo::clock::{elapsed_from_reading, indicator_phase, FrameClock};
use sdl_demo::render::{step, InputEvent, LoopState, FRAME_DELAY_NANOS, TEXTURE_SIZE};
use sdl_demo::texture::{create_solid_texture, texture_color_rgb, Rgb, TextureColor};

#[test]
fn phase_toggles_every_second() {
    assert!(indicator_phase(0));
    assert!(!indicator_phase(1));
    assert!(indicator_phase(2));
    assert!(!indicator_phase(3));
    assert!(indicator_phase(100));
}

#[test]
fn failed_reading_counts_as_zero() {
    assert_eq!(elapsed_from_reading(None), 0);
    assert_eq!(elapsed_from_reading(Some(7)), 7);
}

#[test]
fn fresh_clock_reads_near_zero() {
    let clock = FrameClock::start();
    assert!(clock.elapsed_seconds() <= 1);
}

#[test]
fn quit_event_stops_loop_without_drawing() {
    let events = vec![InputEvent::Other, InputEvent::Quit];
    let (state, plan) = step(LoopState::Running, &events, Some(0));
    assert_eq!(state, LoopState::Stopped);
    assert!(plan.is_none());
}

#[test]
fn escape_key_stops_loop_without_drawing() {
    let events = vec![InputEvent::EscapeKeyDown];
    let (state, plan) = step(LoopState::Running, &events, Some(0));
    assert_eq!(state, LoopState::Stopped);
    assert!(plan.is_none());
}

#[test]
fn stopped_loop_stays_stopped() {
    let events: Vec<InputEvent> = vec![];
    let (state, plan) = step(LoopState::Stopped, &events, Some(0));
    assert_eq!(state, LoopState::Stopped);
    assert!(plan.is_none());
}

#[test]
fn other_events_are_ignored() {
    let events = vec![InputEvent::Other, InputEvent::Other];
    let (state, plan) = step(LoopState::Running, &events, Some(0));
    assert_eq!(state, LoopState::Running);
    assert!(plan.is_some());
}

#[test]
fn running_frame_plan_even_second() {
    let events: Vec<InputEvent> = vec![];
    let (state, plan) = step(LoopState::Running, &events, Some(2));
    assert_eq!(state, LoopState::Running);
    let plan = plan.unwrap();
    assert_eq!(plan.clear, Rgb { r: 255, g: 0, b: 0 });
    assert_eq!(plan.indicator, TextureColor::Green);
    assert_eq!(plan.indicator_x, 0);
    assert_eq!(plan.indicator_y, 0);
    assert_eq!(plan.indicator_size, TEXTURE_SIZE);
    assert_eq!(plan.delay_nanos, FRAME_DELAY_NANOS);
    assert_eq!(FRAME_DELAY_NANOS, 16_666_666);
}

#[test]
fn running_frame_plan_odd_second_is_blue() {
    let events: Vec<InputEvent> = vec![];
    let (_, plan) = step(LoopState::Running, &events, Some(1));
    assert_eq!(plan.unwrap().indicator, TextureColor::Blue);
}

#[test]
fn failed_clock_reading_shows_green() {
    let events: Vec<InputEvent> = vec![];
    let (_, plan) = step(LoopState::Running, &events, None);
    assert_eq!(plan.unwrap().indicator, TextureColor::Green);
}

#[test]
fn color_mapping_is_pure_green_and_pure_blue() {
    assert_eq!(texture_color_rgb(TextureColor::Green), Rgb { r: 0, g: 255, b: 0 });
    assert_eq!(texture_color_rgb(TextureColor::Blue), Rgb { r: 0, g: 0, b: 255 });
}

#[test]
fn solid_texture_every_pixel_matches_mapped_color() {
    let tex = create_solid_texture(TextureColor::Green, 32);
    assert_eq!(tex.side(), 32);
    for y in 0..32 {
        for x in 0..32 {
            assert_eq!(tex.pixel(x, y), Rgb { r: 0, g: 255, b: 0 });
        }
    }
    let tex = create_solid_texture(TextureColor::Blue, 32);
    for y in 0..32 {
        for x in 0..32 {
            assert_eq!(tex.pixel(x, y), Rgb { r: 0, g: 0, b: 255 });
        }
    }
}
