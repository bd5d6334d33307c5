//! The tray icon, drawn in code so that there is no binary asset.
//!
//! Three states, distinguished by *shape* as well as colour: an icon is small, and
//! a difference only in colour is no difference at all to anyone who cannot see
//! it.

use vstd::prelude::*;

verus! {

/// What the icon is saying. With no window and no console, this and the log are
/// the only places where the daemon's state is visible.
#[derive(Debug, Clone, Copy, PartialEq, Eq, Structural)]
pub enum Status {
    /// Hotkeys registered, waiting to be pressed.
    Ready,
    /// An action is running. Switching to the TV takes seconds, so this is on
    /// screen long enough to be worth drawing.
    Working,
    /// A hotkey did not register, or the last action failed. The menu says which,
    /// and the log says why.
    Problem,
}

impl Default for Status {
    fn default() -> (r: Status)
        ensures
            r == Status::Ready,
    {
        Status::Ready
    }
}

impl Status {
    /// The place of a status among all of them.
    pub open spec fn place(self) -> int {
        match self {
            Status::Ready => 0,
            Status::Working => 1,
            Status::Problem => 2,
        }
    }

    /// The place of a status among all of them.
    pub fn index(self) -> (r: usize)
        ensures
            r == self.place(),
    {
        match self {
            Status::Ready => 0,
            Status::Working => 1,
            Status::Problem => 2,
        }
    }
}

/// How many pixels the icon is wide and high.
pub const SIZE: usize = 32;

/// How many bytes the icon has, four to a pixel.
pub const BYTES: usize = 4096;

/// The icon's pixels, in rows from the top, each as blue, green, red and opacity.
pub type Pixels = [u8; BYTES];

/// A screen: an outline two pixels thick.
pub open spec fn on_screen_edge(x: int, y: int) -> bool {
    &&& 4 <= x <= 27
    &&& 6 <= y <= 21
    &&& x < 6 || x > 25 || y < 8 || y > 19
}

/// Its stand: a neck and a foot.
pub open spec fn on_stand(x: int, y: int) -> bool {
    ||| 14 <= x <= 17 && 22 <= y <= 24
    ||| 10 <= x <= 21 && 25 <= y <= 26
}

/// The mark inside the screen, which is what tells the states apart where the
/// colour is a guess: filled when all is well, a bar while something is in
/// progress, a cross when there is a problem.
pub open spec fn on_mark(status: Status, x: int, y: int) -> bool {
    match status {
        Status::Ready => 8 <= x <= 23 && 10 <= y <= 17,
        Status::Working => 8 <= x <= 23 && 12 <= y <= 15,
        Status::Problem => 9 <= y <= 20 && (y <= x <= y + 2 || 29 - y <= x <= 31 - y),
    }
}

/// Whether a pixel is drawn.
pub open spec fn lit(status: Status, x: int, y: int) -> bool {
    on_screen_edge(x, y) || on_stand(x, y) || on_mark(status, x, y)
}

/// The bytes of a pixel that is drawn: green when all is well, amber while
/// something is in progress, red when there is a problem.
pub open spec fn colour(status: Status, channel: int) -> u8 {
    if channel == 3 {
        0xFF
    } else {
        match status {
            Status::Ready => if channel == 0 {
                0x50
            } else if channel == 1 {
                0xAF
            } else {
                0x4C
            },
            Status::Working => if channel == 0 {
                0x00
            } else if channel == 1 {
                0xB3
            } else {
                0xFF
            },
            Status::Problem => if channel == 0 {
                0x35
            } else if channel == 1 {
                0x39
            } else {
                0xE5
            },
        }
    }
}

/// A byte of the icon.
pub open spec fn pixel_byte(status: Status, i: int) -> u8 {
    if lit(status, i / 4 % 32, i / 4 / 32) {
        colour(status, i % 4)
    } else {
        0
    }
}

// Whether a pixel is drawn.
fn is_lit(status: Status, x: usize, y: usize) -> (r: bool)
    requires
        x < 32,
        y < 32,
    ensures
        r == lit(status, x as int, y as int),
{
    let edge = 4 <= x && x <= 27 && 6 <= y && y <= 21 && (x < 6 || x > 25 || y < 8 || y > 19);
    let stand = (14 <= x && x <= 17 && 22 <= y && y <= 24) || (10 <= x && x <= 21 && 25 <= y && y
        <= 26);
    let mark = match status {
        Status::Ready => 8 <= x && x <= 23 && 10 <= y && y <= 17,
        Status::Working => 8 <= x && x <= 23 && 12 <= y && y <= 15,
        Status::Problem => 9 <= y && y <= 20 && ((y <= x && x <= y + 2) || (29 <= x + y && x + y
            <= 31)),
    };
    edge || stand || mark
}

// The bytes of a pixel that is drawn.
fn colours(status: Status) -> (r: [u8; 4])
    ensures
        forall|c: int| 0 <= c < 4 ==> #[trigger] r@[c] == colour(status, c),
{
    match status {
        Status::Ready => [0x50, 0xAF, 0x4C, 0xFF],
        Status::Working => [0x00, 0xB3, 0xFF, 0xFF],
        Status::Problem => [0x35, 0x39, 0xE5, 0xFF],
    }
}

/// Draw one status: a monitor outline with a mark that names the state.
pub fn draw(status: Status) -> (px: Pixels)
    ensures
        forall|i: int| 0 <= i < 4096 ==> #[trigger] px@[i] == pixel_byte(status, i),
{
    let mut px: [u8; 4096] = [0u8; 4096];
    let bytes = colours(status);
    for i in 0..4096usize
        invariant
            px@.len() == 4096,
            forall|c: int| 0 <= c < 4 ==> #[trigger] bytes@[c] == colour(status, c),
            forall|j: int| 0 <= j < i ==> #[trigger] px@[j] == pixel_byte(status, j),
            forall|j: int| i <= j < 4096 ==> px@[j] == 0,
    {
        if is_lit(status, i / 4 % 32, i / 4 / 32) {
            px[i] = bytes[i % 4];
        }
    }
    px
}

/// The states differ in shape, not only in colour: of any two, one has a pixel
/// that the other has not.
pub proof fn law_states_differ_in_shape(a: Status, b: Status)
    requires
        a != b,
    ensures
        exists|x: int, y: int|
            0 <= x < 32 && 0 <= y < 32 && #[trigger] lit(a, x, y) != lit(b, x, y),
{
    // Filled but neither in the bar nor on the cross; in the bar but not on the
    // cross.
    assert(lit(Status::Ready, 8, 10) && !lit(Status::Working, 8, 10) && !lit(
        Status::Problem,
        8,
        10,
    ));
    assert(lit(Status::Working, 8, 12) && !lit(Status::Problem, 8, 12));
}

/// Nothing is drawn at the edge of the icon: whatever the state, the picture has
/// room around it.
pub proof fn law_the_picture_has_room_around_it(status: Status, x: int, y: int)
    requires
        lit(status, x, y),
    ensures
        4 <= x <= 27,
        6 <= y <= 26,
{
}

/// A pixel is opaque exactly if it is drawn.
pub proof fn law_what_is_drawn_is_opaque(status: Status, x: int, y: int)
    requires
        0 <= x < 32,
        0 <= y < 32,
    ensures
        (pixel_byte(status, (y * 32 + x) * 4 + 3) != 0) == lit(status, x, y),
{
    let i = (y * 32 + x) * 4 + 3;
    assert(i / 4 == y * 32 + x);
    assert(i / 4 % 32 == x && i / 4 / 32 == y);
    assert(i % 4 == 3);
}

/// A pixel stands in its row and its column, from the top left on, as four bytes: blue,
/// green, red and opacity. One that is not drawn is all zeros.
pub proof fn law_a_pixel_has_its_place_and_colour(status: Status, x: int, y: int, channel: int)
    requires
        0 <= x < 32,
        0 <= y < 32,
        0 <= channel < 4,
    ensures
        pixel_byte(status, (y * 32 + x) * 4 + channel) == if lit(status, x, y) {
            colour(status, channel)
        } else {
            0
        },
        SIZE == 32 && BYTES == SIZE * SIZE * 4,
{
    let i = (y * 32 + x) * 4 + channel;
    assert(i / 4 == y * 32 + x);
    assert(i / 4 % 32 == x && i / 4 / 32 == y);
    assert(i % 4 == channel);
}

/// Green prevails when all is well, red when there is a problem, and red and green
/// together, which is amber, while something is in progress.
pub proof fn law_each_state_has_its_colour()
    ensures
        ({
            let (blue, green, red) = (0int, 1int, 2int);
            &&& colour(Status::Ready, green) > 2 * colour(Status::Ready, red)
            &&& colour(Status::Ready, green) > 2 * colour(Status::Ready, blue)
            &&& colour(Status::Problem, red) > 2 * colour(Status::Problem, green)
            &&& colour(Status::Problem, red) > 2 * colour(Status::Problem, blue)
            &&& colour(Status::Working, red) > colour(Status::Working, green)
            &&& colour(Status::Working, green) > 2 * colour(Status::Working, blue)
            &&& colour(Status::Ready, 3) == 255 && colour(Status::Working, 3) == 255 && colour(
                Status::Problem,
                3,
            ) == 255
        }),
        colour(Status::Ready, 0) == 0x50 && colour(Status::Ready, 1) == 0xAF && colour(
            Status::Ready,
            2,
        ) == 0x4C,
        colour(Status::Working, 0) == 0x00 && colour(Status::Working, 1) == 0xB3 && colour(
            Status::Working,
            2,
        ) == 0xFF,
        colour(Status::Problem, 0) == 0x35 && colour(Status::Problem, 1) == 0x39 && colour(
            Status::Problem,
            2,
        ) == 0xE5,
{
}

/// The picture is a screen on a stand: an outline two pixels thick, with the mark of the
/// state inside it, filled, a bar in the middle half of that, or a cross from corner to
/// corner, and a neck and a foot below.
pub proof fn law_the_picture_is_a_screen_on_a_stand(status: Status, x: int, y: int)
    ensures
        ({
            let inside = 6 <= x <= 25 && 8 <= y <= 19;
            let screen = 4 <= x <= 27 && 6 <= y <= 21;
            let stand = y > 21 && lit(status, x, y);
            &&& screen && !inside ==> lit(status, x, y)
            &&& !screen && y <= 21 ==> !lit(status, x, y)
            &&& stand <==> (14 <= x <= 17 && 22 <= y <= 24) || (10 <= x <= 21 && 25 <= y <= 26)
            &&& inside && status == Status::Ready ==> (lit(status, x, y) <==> 8 <= x <= 23 && 10
                <= y <= 17)
            &&& inside && status == Status::Working ==> (lit(status, x, y) <==> 8 <= x <= 23 && 12
                <= y <= 15)
            &&& inside && status == Status::Problem ==> (lit(status, x, y) <==> 9 <= y && (0 <= x
                - y <= 2 || 29 <= x + y <= 31))
        }),
{
}

/// The picture is the same from left to right and from right to left, but for the cross.
pub proof fn law_the_picture_is_symmetric(status: Status, x: int, y: int)
    requires
        status != Status::Problem,
    ensures
        lit(status, x, y) == lit(status, 31 - x, y),
{
}

/// The laws on pixels are about what is drawn.
pub proof fn law_what_is_drawn_is_the_picture(status: Status, px: Pixels, i: int)
    requires
        call_ensures(draw, (status,), px),
        0 <= i < 4096,
    ensures
        px@[i] == pixel_byte(status, i),
{
}

} // verus!
