use houselights::{
    chunk, failed_universes, gamma_correct, gamma_level, kelvin_plan, normalize_value, render,
    resolve_level, splice_null_pixels, Curve, Level, Streams, Universe, Zone, RGB,
};

fn rgb(red: u8, green: u8, blue: u8) -> RGB {
    RGB { red, green, blue }
}

fn zone(head: u8, body: u8, tail: u8) -> Zone {
    Zone { head, body, tail, name: String::from("shelf") }
}

fn fitted(curve: Curve, x: u16) -> i64 {
    let x = x as f32;
    let v = match curve {
        Curve::RedFalloff => 329.698727446 * x.powf(-0.1332047592),
        Curve::GreenLog => 99.4708025861 * x.ln() - 161.1195681661,
        Curve::GreenFalloff => 288.1221695283 * x.powf(-0.0755148492),
        Curve::BlueLog => 138.5177312231 * x.ln() - 305.0447927307,
    };
    v.round() as i64
}

fn channel(level: Level) -> u8 {
    match level {
        Level::Fixed(_) => resolve_level(level, 0),
        Level::Fitted(c, x) => resolve_level(level, fitted(c, x)),
    }
}

fn kelvin(temp: u16) -> RGB {
    let plan = kelvin_plan(temp);
    rgb(channel(plan.red), channel(plan.green), channel(plan.blue))
}

#[test]
fn it_works() {
}

#[test]
fn kelvin_6600_is_white() {
    let plan = kelvin_plan(6600);
    assert_eq!(plan.red, Level::Fixed(255));
    assert_eq!(plan.green, Level::Fitted(Curve::GreenLog, 66));
    assert_eq!(plan.blue, Level::Fixed(255));
    assert_eq!(kelvin(6600), rgb(255, 255, 255));
}

#[test]
fn kelvin_1000_is_warm() {
    let plan = kelvin_plan(1000);
    assert_eq!(plan.red, Level::Fixed(255));
    assert_eq!(plan.blue, Level::Fixed(0));
    let c = kelvin(1000);
    assert_eq!(c, rgb(255, 68, 0));
    assert!(c.red > c.green && c.green > c.blue);
}

#[test]
fn kelvin_hot_and_cold_branches() {
    let hot = kelvin_plan(10000);
    assert_eq!(hot.red, Level::Fitted(Curve::RedFalloff, 40));
    assert_eq!(hot.green, Level::Fitted(Curve::GreenFalloff, 40));
    assert_eq!(hot.blue, Level::Fixed(255));
    let mid = kelvin_plan(4000);
    assert_eq!(mid.blue, Level::Fitted(Curve::BlueLog, 30));
    let zero = kelvin_plan(50);
    assert_eq!(zero.green, Level::Fixed(0));
    assert_eq!(kelvin(50), rgb(255, 0, 0));
}

#[test]
fn normalize_clamps() {
    assert_eq!(normalize_value(-3), 0);
    assert_eq!(normalize_value(0), 0);
    assert_eq!(normalize_value(77), 77);
    assert_eq!(normalize_value(255), 255);
    assert_eq!(normalize_value(256), 255);
    assert_eq!(resolve_level(Level::Fixed(9), 200), 9);
    assert_eq!(resolve_level(Level::Fitted(Curve::BlueLog, 30), 300), 255);
}

#[test]
fn full_scale_stays_in_range() {
    let i: f32 = 1.0 * 255.0;
    let white = rgb(255, 255, 255);
    let scaled = normalize_value((white.red as f32 * i).round() as i64);
    assert_eq!(scaled, 255);
}

#[test]
fn gamma_levels() {
    assert_eq!(gamma_level(0), 0);
    assert_eq!(gamma_level(1), 0);
    assert_eq!(gamma_level(50), 7);
    assert_eq!(gamma_level(100), 32);
    assert_eq!(gamma_level(128), 55);
    assert_eq!(gamma_level(200), 149);
    assert_eq!(gamma_level(254), 252);
    assert_eq!(gamma_level(255), 255);
}

#[test]
fn gamma_snaps_dark_colors_to_black() {
    assert_eq!(gamma_correct(&rgb(60, 0, 0)), RGB::null());
    assert_eq!(gamma_correct(&rgb(50, 50, 0)), RGB::null());
    assert_eq!(gamma_correct(&rgb(64, 64, 0)), rgb(12, 12, 0));
    assert_eq!(gamma_correct(&rgb(60, 60, 0)), rgb(10, 10, 0));
    assert_eq!(gamma_correct(&rgb(100, 128, 255)), rgb(32, 55, 255));
}

#[test]
fn splice_head_and_tail() {
    let p1 = rgb(1, 2, 3);
    let p2 = rgb(4, 5, 6);
    let out = splice_null_pixels(&[p1, p2], &[zone(1, 2, 1)]);
    assert_eq!(out, vec![RGB::null(), p1, p2, RGB::null()]);
}

#[test]
fn splice_two_zones_and_overrun() {
    let a = rgb(10, 0, 0);
    let b = rgb(0, 10, 0);
    let c = rgb(0, 0, 10);
    let n = RGB::null();
    let out = splice_null_pixels(&[a, b, c], &[zone(0, 1, 2), zone(1, 1, 0)]);
    assert_eq!(out, vec![a, n, n, n, b, c]);
    let past = splice_null_pixels(&[a], &[zone(0, 4, 2)]);
    assert_eq!(past, vec![a, n, n]);
    let none = splice_null_pixels(&[a, b], &[]);
    assert_eq!(none, vec![a, b]);
}

#[test]
fn chunk_600_bytes() {
    let pixels = vec![rgb(255, 255, 255); 200];
    let chunks = chunk(&pixels);
    assert_eq!(chunks.len(), 2);
    assert_eq!(chunks[0].len(), 510);
    assert_eq!(chunks[1].len(), 90);
    assert!(chunks[0].iter().all(|b| *b == 255));
    let universes = render(&pixels, &[]);
    assert_eq!(universes.len(), 2);
    assert_eq!(universes[0].id, 1);
    assert_eq!(universes[1].id, 2);
    assert_eq!(universes[0].data, chunks[0]);
    assert_eq!(universes[1].data, chunks[1]);
}

#[test]
fn chunk_exactly_one_universe() {
    let pixels = vec![rgb(255, 0, 255); 170];
    let chunks = chunk(&pixels);
    assert_eq!(chunks.len(), 1);
    assert_eq!(chunks[0].len(), 510);
}

#[test]
fn empty_render_sends_one_empty_universe() {
    let chunks = chunk(&[]);
    assert_eq!(chunks, vec![Vec::<u8>::new()]);
    let universes = render(&[], &[]);
    assert_eq!(universes.len(), 1);
    assert_eq!(universes[0].id, 1);
    assert!(universes[0].data.is_empty());
}

#[test]
fn render_applies_zones_and_gamma() {
    let universes = render(&[rgb(128, 255, 0)], &[zone(1, 1, 1)]);
    assert_eq!(universes.len(), 1);
    assert_eq!(universes[0].data, vec![0, 0, 0, 55, 255, 0, 0, 0, 0]);
}

#[test]
fn render_is_repeatable() {
    let lights: Vec<RGB> = (0..300u32).map(|i| rgb(i as u8, (i * 7) as u8, 200)).collect();
    let zones = vec![zone(2, 100, 3), zone(0, 50, 5)];
    let first = render(&lights, &zones);
    let second = render(&lights, &zones);
    assert_eq!(first.len(), second.len());
    for (a, b) in first.iter().zip(second.iter()) {
        assert_eq!(a.id, b.id);
        assert_eq!(a.data, b.data);
    }
}

#[test]
fn failures_are_collected() {
    let universes: Vec<Universe> = (1..=4u16).map(|id| Universe { id, data: vec![] }).collect();
    assert_eq!(failed_universes(&universes, &[true, false, true, false]), vec![2, 4]);
    assert_eq!(failed_universes(&universes, &[true; 4]), Vec::<u16>::new());
}

#[test]
fn streams_terminate_each_universe_once() {
    let mut streams = Streams::new();
    assert!(streams.to_terminate().is_empty());
    let two = render(&vec![rgb(1, 1, 1); 200], &[]);
    let one = render(&[], &[]);
    streams.record(&one);
    streams.record(&two);
    streams.record(&one);
    assert_eq!(streams.to_terminate(), vec![1, 2]);
    assert!(streams.contains(2));
    assert!(!streams.contains(3));
}
