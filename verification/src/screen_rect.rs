use vstd::prelude::*;

verus! {

/// The largest coordinate or size that a screen rectangle keeps (half of `i32::MAX`).
pub open spec fn max_int_value() -> int {
    0x3fff_ffff
}

/// The smallest coordinate that a screen rectangle keeps (half of `i32::MIN`).
pub open spec fn min_int_value() -> int {
    -0x4000_0000
}

/// A size as a screen rectangle keeps it: at least 1, at most `max_int_value()`.
pub open spec fn clamp_size(val: u32) -> u32 {
    if val == 0 {
        1
    } else if val > max_int_value() {
        max_int_value() as u32
    } else {
        val
    }
}

/// A coordinate as a screen rectangle keeps it: within `min_int_value()..=max_int_value()`.
pub open spec fn clamp_position(val: i32) -> i32 {
    if val > max_int_value() {
        max_int_value() as i32
    } else if val < min_int_value() {
        min_int_value() as i32
    } else {
        val
    }
}

fn clamp_size_exec(val: u32) -> (res: u32)
    ensures
        res == clamp_size(val),
{
    if val == 0 {
        1
    } else if val > 0x3fff_ffff {
        0x3fff_ffff
    } else {
        val
    }
}

fn clamp_position_exec(val: i32) -> (res: i32)
    ensures
        res == clamp_position(val),
{
    if val > 0x3fff_ffff {
        0x3fff_ffff
    } else if val < -0x4000_0000 {
        -0x4000_0000
    } else {
        val
    }
}

/// A rectangle of pixels, with the clamping of the renderer's rectangles: coordinates within
/// `min_int_value()..=max_int_value()`, sizes within `1..=max_int_value()`.
#[derive(Copy, Clone, Debug, PartialEq, Eq, Structural)]
pub struct ScreenRect {
    pub x: i32,
    pub y: i32,
    pub width: u32,
    pub height: u32,
}

impl ScreenRect {
    pub open spec fn wf(self) -> bool {
        &&& min_int_value() <= self.x <= max_int_value()
        &&& min_int_value() <= self.y <= max_int_value()
        &&& 1 <= self.width <= max_int_value()
        &&& 1 <= self.height <= max_int_value()
    }

    /// A rectangle with its coordinates and sizes clamped.
    pub fn new(x: i32, y: i32, width: u32, height: u32) -> (res: ScreenRect)
        ensures
            res.wf(),
            res == (ScreenRect {
                x: clamp_position(x),
                y: clamp_position(y),
                width: clamp_size(width),
                height: clamp_size(height),
            }),
    {
        ScreenRect {
            x: clamp_position_exec(x),
            y: clamp_position_exec(y),
            width: clamp_size_exec(width),
            height: clamp_size_exec(height),
        }
    }

    /// The x coordinate just past the right side.
    pub fn right(&self) -> (res: i32)
        requires
            self.wf(),
        ensures
            res == self.x + self.width,
    {
        self.x + self.width as i32
    }
}

/// How a scrolled texture that runs past the right side of its place on screen is drawn: the
/// part that fits, and the part that spills over, wrapped around to the left (with the texture
/// part it shows). `diff` is how much wider the texture is than its place.
pub open spec fn split_spec(
    texture_src: ScreenRect,
    screen_dest: ScreenRect,
    texture_size: (u32, u32),
) -> (ScreenRect, Option<(ScreenRect, ScreenRect)>) {
    let diff = texture_size.0 - screen_dest.width;
    if texture_src.x <= diff {
        (screen_dest, None)
    } else {
        let spill = (texture_src.x - diff) as u32;
        let righthand = ScreenRect { width: clamp_size((screen_dest.width - spill) as u32), ..screen_dest };
        let lefthand = ScreenRect {
            x: clamp_position((righthand.x + righthand.width) as i32),
            width: clamp_size(spill),
            ..screen_dest
        };
        let clip = ScreenRect { x: 0, y: 0, width: clamp_size(spill), height: clamp_size(texture_size.1) };
        (righthand, Some((clip, lefthand)))
    }
}

/// Splits the place on screen of a scrolled texture in two when the texture runs past its
/// right side (see `split_spec`). The texture is at least as wide as its place, and it is not
/// scrolled past its own width.
pub fn split_overflowing_scrolled_rect(
    texture_src: ScreenRect,
    screen_dest: ScreenRect,
    texture_size: (u32, u32),
) -> (res: (ScreenRect, Option<(ScreenRect, ScreenRect)>))
    requires
        texture_src.wf(),
        screen_dest.wf(),
        texture_size.0 <= i32::MAX,
        texture_size.0 >= screen_dest.width,
        texture_src.x <= texture_size.0,
    ensures
        res == split_spec(texture_src, screen_dest, texture_size),
        res.0.wf(),
        match res.1 {
            Some((clip, lefthand)) => clip.wf() && lefthand.wf(),
            None => true,
        },
{
    let diff: i32 = texture_size.0 as i32 - screen_dest.width as i32;
    if texture_src.x <= diff {
        return (screen_dest, None);
    }
    let spill = (texture_src.x - diff) as u32;
    let mut righthand = screen_dest;
    righthand.width = clamp_size_exec(screen_dest.width - spill);
    let mut lefthand = screen_dest;
    lefthand.width = clamp_size_exec(spill);
    lefthand.x = clamp_position_exec(righthand.right());
    let clip = ScreenRect::new(0, 0, spill, texture_size.1);
    (righthand, Some((clip, lefthand)))
}

/// How a scrolled texture's place is split when the texture runs `s` pixels past its place's
/// right side (`s` is how far it is scrolled beyond the part that fits): the part shown in place
/// keeps the place's left side and is `s` pixels narrower, and the spilled part, `s` pixels
/// wide like its clip of the texture's left edge, sits right after it, so the two widths add up
/// to the place's width (where the whole place spills, the part in place keeps the renderer's
/// least width, 1). A texture not scrolled that far is drawn in its place, whole.
pub proof fn law_scrolled_texture_split(texture_src: ScreenRect, screen_dest: ScreenRect, texture_size: (u32, u32))
    requires
        texture_src.wf(),
        screen_dest.wf(),
        texture_size.0 <= i32::MAX,
        texture_size.0 >= screen_dest.width,
        texture_src.x <= texture_size.0,
    ensures
        ({
            let s = texture_src.x - (texture_size.0 - screen_dest.width);
            let (shown, spilled) = split_spec(texture_src, screen_dest, texture_size);
            &&& s <= 0 ==> shown == screen_dest && spilled is None
            &&& s > 0 ==> spilled is Some && {
                let (clip, wrapped) = spilled->0;
                &&& clip.x == 0 && clip.y == 0 && clip.width == s && clip.height == clamp_size(texture_size.1)
                &&& wrapped.width == s
                &&& shown.x == screen_dest.x && shown.y == screen_dest.y && shown.height == screen_dest.height
                &&& wrapped.y == screen_dest.y && wrapped.height == screen_dest.height
                &&& s < screen_dest.width ==> shown.width == screen_dest.width - s
                    && shown.width + wrapped.width == screen_dest.width
                &&& s == screen_dest.width ==> shown.width == 1
                &&& wrapped.x == clamp_position((shown.x + shown.width) as i32)
                &&& s < screen_dest.width && screen_dest.x + screen_dest.width <= max_int_value()
                    ==> wrapped.x == shown.x + shown.width
            }
        }),
{
}

} // verus!
