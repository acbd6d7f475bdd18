use raycaster::canvas::Canvas;
use raycaster::color::ChannelOrder;
use raycaster::texture::Texture;

#[test]
fn put_writes_the_channels_in_the_buffer_order() {
    let mut c = Canvas::new(2, 1, ChannelOrder::Argb);
    c.put(4, 1, 2, 3, 4);
    assert_eq!(c.pixels, vec![0, 0, 0, 0, 4, 3, 2, 1]);
    let mut c = Canvas::new(2, 1, ChannelOrder::Abgr);
    c.put(0, 1, 2, 3, 4);
    assert_eq!(&c.pixels[..4], &[2, 3, 4, 1]);
    assert_eq!(c.words()[0], 0x0104_0302);
}

#[test]
fn rectangle_is_clipped_to_the_canvas() {
    let mut c = Canvas::new(4, 3, ChannelOrder::Argb);
    c.fill_rectangle(2, 1, 5, 5, 9, 9, 9, 255);
    let filled: Vec<usize> = c.words().iter().enumerate().filter(|(_, w)| **w != 0).map(|(i, _)| i).collect();
    assert_eq!(filled, vec![6, 7, 10, 11]);
}

#[test]
fn horizontal_line_covers_its_length() {
    let mut c = Canvas::new(8, 4, ChannelOrder::Argb);
    c.draw_line(1, 2, 5, 2, 255, 0, 0, 255);
    let w = c.words();
    for x in 1..5 {
        assert_eq!(w[2 * 8 + x], 0xffff_0000);
    }
    assert_eq!(w[2 * 8 + 5], 0);
    assert_eq!(w[2 * 8], 0);
}

#[test]
fn slice_stays_in_its_column_and_stretches() {
    let mut c = Canvas::new(4, 8, ChannelOrder::Argb);
    // A 2 by 2 texture; column 0 holds a red texel over a green one.
    let tex = Texture {
        width: 2,
        height: 2,
        data: vec![255, 0, 0, 255, 0, 0, 255, 255, 0, 255, 0, 255, 0, 0, 255, 255],
    };
    c.draw_slice(&tex, 1, 2, 4, 0, 1, 1);
    let w = c.words();
    for (i, word) in w.iter().enumerate() {
        if i % 4 != 1 {
            assert_eq!(*word, 0);
        }
    }
    assert_eq!(w[2 * 4 + 1], 0xffff_0000);
    assert_eq!(w[3 * 4 + 1], 0xffff_0000);
    assert_eq!(w[4 * 4 + 1], 0xff00_ff00);
    assert_eq!(w[5 * 4 + 1], 0xff00_ff00);
    assert_eq!(w[6 * 4 + 1], 0);
}
