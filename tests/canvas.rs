use tracy::display::{Canvas, RenderMessage};
use tracy::image::Rgb;

fn pixel(x: u32, y: u32, r: u8) -> RenderMessage {
    RenderMessage::Pixel { x, y, color: Rgb::new(r, r, r) }
}

#[test]
fn new_canvas_is_empty() {
    let c = Canvas::new(4, 3);
    assert_eq!(c.total(), 12);
    assert_eq!(c.placed(), 0);
    assert!(!c.is_complete());
    assert_eq!(c.reported(), 0);
    assert!(!c.finished());
}

#[test]
fn pixel_is_placed_at_its_coordinates() {
    let mut c = Canvas::new(4, 3);
    assert!(c.apply(pixel(3, 2, 200)));
    assert_eq!(c.image().get(3, 2), Rgb::new(200, 200, 200));
    assert_eq!(c.image().get(2, 2), Rgb::new(0, 0, 0));
    assert_eq!(c.placed(), 1);
}

#[test]
fn pixel_outside_is_dropped() {
    let mut c = Canvas::new(4, 3);
    assert!(!c.apply(pixel(4, 0, 9)));
    assert!(!c.apply(pixel(0, 3, 9)));
    assert_eq!(c.placed(), 0);
    assert!(c.image().as_slice().iter().all(|p| *p == Rgb::new(0, 0, 0)));
}

#[test]
fn repeated_pixel_is_counted_once() {
    let mut c = Canvas::new(2, 1);
    c.apply(pixel(0, 0, 1));
    c.apply(pixel(0, 0, 2));
    assert_eq!(c.placed(), 1);
    assert_eq!(c.image().get(0, 0), Rgb::new(2, 2, 2));
    assert!(!c.is_complete());
    c.apply(pixel(1, 0, 3));
    assert!(c.is_complete());
}

#[test]
fn progress_never_goes_back() {
    let mut c = Canvas::new(2, 2);
    assert!(!c.apply(RenderMessage::Progress { done: 3 }));
    c.apply(RenderMessage::Progress { done: 1 });
    assert_eq!(c.reported(), 3);
    c.apply(RenderMessage::Progress { done: 4 });
    assert_eq!(c.reported(), 4);
}

#[test]
fn finished_is_remembered() {
    let mut c = Canvas::new(1, 1);
    assert!(!c.apply(RenderMessage::Finished));
    assert!(c.finished());
    assert!(!c.is_complete());
}

#[test]
fn arrival_order_does_not_change_the_picture() {
    let msgs = [
        pixel(0, 0, 10),
        RenderMessage::Progress { done: 1 },
        pixel(1, 0, 20),
        pixel(0, 1, 30),
        pixel(1, 1, 40),
        RenderMessage::Progress { done: 4 },
        RenderMessage::Finished,
    ];
    let mut forward = Canvas::new(2, 2);
    for m in msgs.iter() {
        forward.apply(*m);
    }
    let mut backward = Canvas::new(2, 2);
    for m in msgs.iter().rev() {
        backward.apply(*m);
    }
    assert_eq!(forward.image().as_slice(), backward.image().as_slice());
    assert_eq!(forward.placed(), backward.placed());
    assert_eq!(forward.reported(), backward.reported());
    assert_eq!(forward.finished(), backward.finished());
    assert!(forward.is_complete());
}
