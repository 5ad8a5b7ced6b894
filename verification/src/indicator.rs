use vstd::prelude::*;

verus! {

/// Number of LEDs on the strip that shows received frames.
pub const LED_COUNT: usize = 16;

/// Brightness at which the strip shows a received frame.
pub const LED_BRIGHTNESS: u8 = 100;

/// The colour of every LED for a received frame: red, green and blue are its
/// first three bytes.
pub fn frame_colors(data: &[u8]) -> (colors: [(u8, u8, u8); 16])
    requires
        data.len() >= 3,
    ensures
        forall|i: int| 0 <= i < 16 ==> #[trigger] colors@[i] == (data@[0], data@[1], data@[2]),
{
    let mut colors: [(u8, u8, u8); 16] = [(0, 0, 0); 16];
    let mut i: usize = 0;
    while i < LED_COUNT
        invariant
            i <= 16,
            data.len() >= 3,
            forall|j: int| 0 <= j < i ==> #[trigger] colors@[j] == (data@[0], data@[1], data@[2]),
        decreases 16 - i,
    {
        colors[i] = (data[0], data[1], data[2]);
        i = i + 1;
    }
    colors
}


/// A colour channel at reduced brightness: the channel times one more than the
/// brightness, divided by 256 (so brightness 255 keeps the channel).
pub open spec fn dimmed(c: u8, brightness: u8) -> u8 {
    (c * (brightness + 1) / 256) as u8
}

/// Scales a colour channel to a brightness.
pub fn dim(c: u8, brightness: u8) -> (d: u8)
    ensures
        d == dimmed(c, brightness),
{
    let factor: u16 = (brightness as u16) + 1;
    assert((c as u16) * factor <= 65280) by (nonlinear_arith)
        requires
            c <= 255,
            factor <= 256,
    ;
    let scaled: u16 = (c as u16) * factor / 256;
    assert(scaled <= 255) by (nonlinear_arith)
        requires
            scaled == (c as u16) * factor / 256,
            (c as u16) * factor <= 65280,
    ;
    scaled as u8
}

/// Every colour at a brightness.
pub fn dim_colors(colors: [(u8, u8, u8); 16], brightness: u8) -> (out: [(u8, u8, u8); 16])
    ensures
        forall|i: int| 0 <= i < 16 ==> #[trigger] out@[i] == (
            dimmed(colors@[i].0, brightness),
            dimmed(colors@[i].1, brightness),
            dimmed(colors@[i].2, brightness),
        ),
{
    let mut out: [(u8, u8, u8); 16] = colors;
    let mut i: usize = 0;
    while i < LED_COUNT
        invariant
            i <= 16,
            forall|j: int| 0 <= j < i ==> #[trigger] out@[j] == (
                dimmed(colors@[j].0, brightness),
                dimmed(colors@[j].1, brightness),
                dimmed(colors@[j].2, brightness),
            ),
        decreases 16 - i,
    {
        let (r, g, b) = colors[i];
        out[i] = (dim(r, brightness), dim(g, brightness), dim(b, brightness));
        i = i + 1;
    }
    out
}

/// What the strip shows for a received frame: the colour of its first three
/// bytes on every LED, at `LED_BRIGHTNESS`.
pub fn shown_colors(data: &[u8]) -> (colors: [(u8, u8, u8); 16])
    requires
        data.len() >= 3,
    ensures
        forall|i: int| 0 <= i < 16 ==> #[trigger] colors@[i] == (
            dimmed(data@[0], LED_BRIGHTNESS),
            dimmed(data@[1], LED_BRIGHTNESS),
            dimmed(data@[2], LED_BRIGHTNESS),
        ),
{
    let full = frame_colors(data);
    let out = dim_colors(full, LED_BRIGHTNESS);
    assert forall|i: int| 0 <= i < 16 implies #[trigger] out@[i] == (
        dimmed(data@[0], LED_BRIGHTNESS),
        dimmed(data@[1], LED_BRIGHTNESS),
        dimmed(data@[2], LED_BRIGHTNESS),
    ) by {
        assert(full@[i] == (data@[0], data@[1], data@[2]));
    }
    out
}


/// Dimming never brightens a channel, keeps it whole at full brightness 255,
/// keeps a dark channel dark, and never darkens a channel when the brightness
/// goes up; the dimmed channel is the largest value whose 256-fold does not
/// exceed the channel times one more than the brightness.
pub proof fn lemma_dimmed_laws(c: u8, b1: u8, b2: u8)
    ensures
        dimmed(c, b1) <= c,
        dimmed(c, 255) == c,
        dimmed(0, b1) == 0,
        b1 <= b2 ==> dimmed(c, b1) <= dimmed(c, b2),
        dimmed(c, b1) * 256 <= c * (b1 + 1) < dimmed(c, b1) * 256 + 256,
{
    let x1 = c * (b1 + 1);
    let x2 = c * (b2 + 1);
    assert(0 <= x1 <= c * 256) by (nonlinear_arith)
        requires
            x1 == c * (b1 + 1),
            0 <= c,
            b1 <= 255,
    ;
    assert(x1 / 256 <= c) by (nonlinear_arith)
        requires
            0 <= x1 <= c * 256,
    ;
    assert(0 <= x2 <= c * 256) by (nonlinear_arith)
        requires
            x2 == c * (b2 + 1),
            0 <= c,
            b2 <= 255,
    ;
    assert(x2 / 256 <= c) by (nonlinear_arith)
        requires
            0 <= x2 <= c * 256,
    ;
    assert((c * 256) / 256 == c) by (nonlinear_arith);
    assert(b1 <= b2 ==> x1 <= x2) by (nonlinear_arith)
        requires
            x1 == c * (b1 + 1),
            x2 == c * (b2 + 1),
            0 <= c,
    ;
    assert(b1 <= b2 ==> x1 / 256 <= x2 / 256) by (nonlinear_arith)
        requires
            b1 <= b2 ==> x1 <= x2,
            0 <= x1,
    ;
    assert((x1 / 256) * 256 <= x1 < (x1 / 256) * 256 + 256) by (nonlinear_arith)
        requires
            0 <= x1,
    ;
    assert(c * (255 + 1) == c * 256);
    assert(0 * (b1 + 1) == 0);
}

} // verus!
