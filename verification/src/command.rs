//! The walker on the board: its position, step count, view and log of
//! visited positions, and what each received package does to them and to
//! the display.

use vstd::prelude::*;
use crate::bounded::{
    visited_as_slice, visited_clear, visited_items, visited_new, visited_push, VISITED_CAPACITY,
};
use crate::cli::{package_of, request_of, RequestView};
use crate::protocol::{Command, Package};
use crate::screen::{
    cleared, decimal_digits, digits_drawn, number_fits, pixel_drawn, Brightness, Screen, ScreenView,
};

verus! {

/// Where the step count is drawn in the step view, horizontally.
pub const COUNTER_X: u8 = 40;
/// Where the step count is drawn in the step view, vertically.
pub const COUNTER_Y: u8 = 20;

/// The walker as the contracts see it.
pub struct StateView {
    pub x: u8,
    pub y: u8,
    pub steps: u32,
    pub map_view: bool,
    pub visited: Seq<(u8, u8)>,
}

/// The position, step count, view and path of the walker.
pub struct State {
    pub x: u8,
    pub y: u8,
    pub steps: u32,
    pub map_view: bool,
    /// Positions after each step, oldest first (at most 1024 of them).
    pub visited: heapless::Vec<(u8, u8), 1024>,
}

impl View for State {
    type V = StateView;

    open spec fn view(&self) -> StateView {
        StateView {
            x: self.x,
            y: self.y,
            steps: self.steps,
            map_view: self.map_view,
            visited: visited_items(self.visited),
        }
    }
}

/// The walker stays on the frame buffer and its log within its capacity.
pub open spec fn state_wf(s: StateView) -> bool {
    &&& s.x < Screen::WIDTH
    &&& s.y < Screen::HEIGHT
    &&& s.visited.len() <= VISITED_CAPACITY
}

/// What the board answers on the serial line.
#[derive(Debug, Clone, Copy, PartialEq, Eq, Structural)]
pub enum Reply {
    /// After a step.
    Walked,
    /// After a reset.
    Reset,
    /// After switching to the map view.
    MapView,
    /// After switching to the step counter view.
    StepView,
    /// The number of steps taken.
    Steps(u32),
}

/// `v` limited to the range `lo..=hi`.
pub open spec fn clamped(v: int, lo: int, hi: int) -> int {
    if v < lo {
        lo
    } else if v > hi {
        hi
    } else {
        v
    }
}

/// The walker at power-up: centre of the screen, no steps, map view, empty log.
pub open spec fn initial_state() -> StateView {
    StateView { x: 64, y: 40, steps: 0, map_view: true, visited: seq![] }
}

/// The walker after a step by (`dx`, `dy`): the position moves and stays on
/// the frame buffer, the count goes up, and the new position is logged while
/// the log has room.
pub open spec fn walked(s: StateView, dx: int, dy: int) -> StateView {
    let x = clamped(s.x + dx, 0, Screen::WIDTH - 1) as u8;
    let y = clamped(s.y + dy, 0, Screen::HEIGHT - 1) as u8;
    StateView {
        x: x,
        y: y,
        steps: (s.steps + 1) as u32,
        visited: if s.visited.len() < VISITED_CAPACITY {
            s.visited.push((x, y))
        } else {
            s.visited
        },
        ..s
    }
}

/// The walker after a reset: back to the centre, no steps, the log holding
/// only the centre; the view stays.
pub open spec fn reset_state(s: StateView) -> StateView {
    StateView { x: 64, y: 40, steps: 0, visited: seq![(64u8, 40u8)], ..s }
}

/// The walker after switching the view.
pub open spec fn switched(s: StateView) -> StateView {
    StateView { map_view: !s.map_view, ..s }
}

/// The display showing the step counter `n` on a white screen.
pub open spec fn counter_shown(scr: ScreenView, font: Seq<Seq<Seq<bool>>>, colors: crate::screen::Palette, n: nat) -> ScreenView {
    digits_drawn(
        cleared(scr, colors.white.level),
        font,
        decimal_digits(n),
        COUNTER_X as int,
        COUNTER_Y as int,
        colors.black.level,
    )
}

/// The display after drawing the logged path `pts[..k]`: the first point in
/// black, the others in the path grey.
pub open spec fn path_drawn(scr: ScreenView, colors: crate::screen::Palette, pts: Seq<(u8, u8)>) -> ScreenView
    decreases pts.len(),
{
    if pts.len() == 0 {
        scr
    } else {
        pixel_drawn(
            path_drawn(scr, colors, pts.drop_last()),
            pts.last().0 as int,
            pts.last().1 as int,
            if pts.len() == 1 {
                colors.black.level
            } else {
                colors.path.level
            },
        )
    }
}

/// Whether every logged position lies on the drawable part of the panel.
pub open spec fn path_drawable(pts: Seq<(u8, u8)>) -> bool {
    forall|i: int| 0 <= i < pts.len() ==> #[trigger] pts[i].0 < 128 && pts[i].1 < 80
}

/// `v` limited to the range `min..=max`, as `Ord::clamp` computes it.
fn clamp(v: i16, min: i16, max: i16) -> (r: i16)
    requires
        min <= max,
    ensures
        r == clamped(v as int, min as int, max as int),
{
    if v < min {
        min
    } else if v > max {
        max
    } else {
        v
    }
}

impl State {
    /// The walker at power-up.
    pub fn new() -> (s: Self)
        ensures
            s@ == initial_state(),
            state_wf(s@),
    {
        Self {
            x: Screen::WIDTH / 2,
            y: Screen::HEIGHT / 2,
            steps: 0,
            map_view: true,
            visited: visited_new(),
        }
    }
}

/// Takes one step by (`dx`, `dy`) and shows it: in the map view the new
/// position is drawn in the path grey, in the step view the counter is drawn
/// again on a white screen.
pub fn walk(dx: i8, dy: i8, state: &mut State, screen: &mut Screen) -> (r: Reply)
    requires
        state_wf(old(state)@),
        old(screen).wf(),
        old(state).steps < u32::MAX,
        !old(state).map_view ==> number_fits(
            old(screen).font(),
            COUNTER_X as int,
            COUNTER_Y as int,
            (old(state).steps + 1) as nat,
        ),
    ensures
        r == Reply::Walked,
        final(state)@ == walked(old(state)@, dx as int, dy as int),
        state_wf(final(state)@),
        final(screen)@ == if old(state).map_view {
            pixel_drawn(
                old(screen)@,
                final(state).x as int,
                final(state).y as int,
                old(screen).colors().path.level,
            )
        } else {
            counter_shown(old(screen)@, old(screen).font(), old(screen).colors(), final(state).steps as nat)
        },
        final(screen).font() == old(screen).font(),
        final(screen).colors() == old(screen).colors(),
        final(screen).wf(),
{
    state.x = clamp(state.x as i16 + dx as i16, 0, (Screen::WIDTH - 1) as i16) as u8;
    state.y = clamp(state.y as i16 + dy as i16, 0, (Screen::HEIGHT - 1) as i16) as u8;
    state.steps += 1;
    let _ = visited_push(&mut state.visited, (state.x, state.y));
    let palette = screen.palette();
    if state.map_view {
        screen.draw_pixel(state.x, state.y, palette.path);
    } else {
        screen.clear(palette.white);
        screen.draw_number(COUNTER_X, COUNTER_Y, state.steps, palette.black);
    }
    Reply::Walked
}

/// Resets the walker to the centre with no steps and clears the screen;
/// the map view then shows the centre in black, the step view the counter.
pub fn reset(state: &mut State, screen: &mut Screen) -> (r: Reply)
    requires
        state_wf(old(state)@),
        old(screen).wf(),
        !old(state).map_view ==> number_fits(
            old(screen).font(),
            COUNTER_X as int,
            COUNTER_Y as int,
            0,
        ),
    ensures
        r == Reply::Reset,
        final(state)@ == reset_state(old(state)@),
        state_wf(final(state)@),
        final(screen)@ == if old(state).map_view {
            pixel_drawn(
                cleared(old(screen)@, old(screen).colors().white.level),
                64,
                40,
                old(screen).colors().black.level,
            )
        } else {
            counter_shown(old(screen)@, old(screen).font(), old(screen).colors(), 0)
        },
        final(screen).font() == old(screen).font(),
        final(screen).colors() == old(screen).colors(),
        final(screen).wf(),
{
    let palette = screen.palette();
    state.x = Screen::WIDTH / 2;
    state.y = Screen::HEIGHT / 2;
    state.steps = 0;
    screen.clear(palette.white);
    visited_clear(&mut state.visited);
    visited_push(&mut state.visited, (state.x, state.y)).unwrap();
    if !state.map_view {
        screen.draw_number(COUNTER_X, COUNTER_Y, state.steps, palette.black);
    } else {
        screen.draw_pixel(state.x, state.y, palette.black);
    }
    proof {
        assert(visited_items(state.visited) =~= seq![(64u8, 40u8)]);
    }
    Reply::Reset
}

/// Switches between the map view and the step counter view and redraws:
/// the map view shows the logged path (its first position in black, the
/// rest in the path grey) on a white screen, the step view the counter.
pub fn switch_view(state: &mut State, screen: &mut Screen) -> (r: Reply)
    requires
        state_wf(old(state)@),
        old(screen).wf(),
        !old(state).map_view ==> path_drawable(old(state)@.visited),
        old(state).map_view ==> number_fits(
            old(screen).font(),
            COUNTER_X as int,
            COUNTER_Y as int,
            old(state).steps as nat,
        ),
    ensures
        r == if old(state).map_view {
            Reply::StepView
        } else {
            Reply::MapView
        },
        final(state)@ == switched(old(state)@),
        state_wf(final(state)@),
        final(screen)@ == if !old(state).map_view {
            path_drawn(
                cleared(old(screen)@, old(screen).colors().white.level),
                old(screen).colors(),
                old(state)@.visited,
            )
        } else {
            counter_shown(
                old(screen)@,
                old(screen).font(),
                old(screen).colors(),
                old(state).steps as nat,
            )
        },
        final(screen).font() == old(screen).font(),
        final(screen).colors() == old(screen).colors(),
        final(screen).wf(),
{
    let palette = screen.palette();
    state.map_view = !state.map_view;
    if state.map_view {
        screen.clear(palette.white);
        let ghost start = screen@;
        let visited = visited_as_slice(&state.visited);
        let mut i: usize = 0;
        while i < visited.len()
            invariant
                i <= visited@.len(),
                path_drawable(visited@),
                screen.wf(),
                screen.font() == old(screen).font(),
                screen.colors() == palette,
                screen@ == path_drawn(start, palette, visited@.take(i as int)),
            decreases visited@.len() - i,
        {
            let (x, y) = visited[i];
            proof {
                assert(visited@[i as int].0 < 128 && visited@[i as int].1 < 80);
                assert(visited@.take(i + 1).drop_last() =~= visited@.take(i as int));
            }
            if i == 0 {
                screen.draw_pixel(x, y, palette.black);
            } else {
                screen.draw_pixel(x, y, palette.path);
            }
            i = i + 1;
        }
        proof {
            assert(visited@.take(visited@.len() as int) =~= visited@);
        }
        Reply::MapView
    } else {
        screen.clear(palette.white);
        screen.draw_number(COUNTER_X, COUNTER_Y, state.steps, palette.black);
        Reply::StepView
    }
}

/// Answers with the number of steps taken.
pub fn request_steps(state: &State) -> (r: Reply)
    ensures
        r == Reply::Steps(state.steps),
{
    Reply::Steps(state.steps)
}

/// The step a walk parameter asks for: 1 moves up, 2 right, 3 down, 4 left.
pub open spec fn walk_delta(parameter: Option<u8>) -> Option<(int, int)> {
    match parameter {
        Some(1u8) => Some((0, -1)),
        Some(2u8) => Some((1, 0)),
        Some(3u8) => Some((0, 1)),
        Some(4u8) => Some((-1, 0)),
        _ => None,
    }
}

/// The walker after handling `p`.
pub open spec fn handled_state(p: Package, s: StateView) -> StateView {
    match p.command {
        Command::walk => match walk_delta(p.parameter) {
            Some(d) => walked(s, d.0, d.1),
            None => s,
        },
        Command::reset => reset_state(s),
        Command::switch => switched(s),
        _ => s,
    }
}

/// The answer to `p`, if it has one.
pub open spec fn handled_reply(p: Package, s: StateView) -> Option<Reply> {
    match p.command {
        Command::walk => match walk_delta(p.parameter) {
            Some(d) => Some(Reply::Walked),
            None => None,
        },
        Command::reset => Some(Reply::Reset),
        Command::switch => Some(
            if s.map_view {
                Reply::StepView
            } else {
                Reply::MapView
            },
        ),
        Command::step => Some(Reply::Steps(s.steps)),
        Command::exit => None,
    }
}

/// The display after handling `p`.
pub open spec fn handled_screen(
    p: Package,
    s: StateView,
    scr: ScreenView,
    font: Seq<Seq<Seq<bool>>>,
    colors: crate::screen::Palette,
) -> ScreenView {
    match p.command {
        Command::walk => match walk_delta(p.parameter) {
            Some(d) => {
                let t = walked(s, d.0, d.1);
                if s.map_view {
                    pixel_drawn(scr, t.x as int, t.y as int, colors.path.level)
                } else {
                    counter_shown(scr, font, colors, t.steps as nat)
                }
            },
            None => scr,
        },
        Command::reset => if s.map_view {
            pixel_drawn(cleared(scr, colors.white.level), 64, 40, colors.black.level)
        } else {
            counter_shown(scr, font, colors, 0)
        },
        Command::switch => if !s.map_view {
            path_drawn(cleared(scr, colors.white.level), colors, s.visited)
        } else {
            counter_shown(scr, font, colors, s.steps as nat)
        },
        _ => scr,
    }
}

/// Whether handling `p` keeps the walker's drawing on the drawable part of
/// the panel and its counter within range.
pub open spec fn can_handle(p: Package, s: StateView, font: Seq<Seq<Seq<bool>>>) -> bool {
    match p.command {
        Command::walk => match walk_delta(p.parameter) {
            Some(d) => {
                &&& s.steps < u32::MAX
                &&& !s.map_view ==> number_fits(
                    font,
                    COUNTER_X as int,
                    COUNTER_Y as int,
                    (s.steps + 1) as nat,
                )
            },
            None => true,
        },
        Command::reset => !s.map_view ==> number_fits(
            font,
            COUNTER_X as int,
            COUNTER_Y as int,
            0,
        ),
        Command::switch => {
            &&& !s.map_view ==> path_drawable(s.visited)
            &&& s.map_view ==> number_fits(
                font,
                COUNTER_X as int,
                COUNTER_Y as int,
                s.steps as nat,
            )
        },
        _ => true,
    }
}

/// Handles one received package: a walk with a known direction parameter
/// takes a step, reset, switch and step do their work, and everything else
/// (a walk without a valid parameter, exit) is ignored.
pub fn handle_package(package: &Package, state: &mut State, screen: &mut Screen) -> (r: Option<
    Reply,
>)
    requires
        state_wf(old(state)@),
        old(screen).wf(),
        can_handle(*package, old(state)@, old(screen).font()),
    ensures
        r == handled_reply(*package, old(state)@),
        final(state)@ == handled_state(*package, old(state)@),
        state_wf(final(state)@),
        final(screen)@ == handled_screen(
            *package,
            old(state)@,
            old(screen)@,
            old(screen).font(),
            old(screen).colors(),
        ),
        final(screen).font() == old(screen).font(),
        final(screen).colors() == old(screen).colors(),
        final(screen).wf(),
{
    match package.command {
        Command::walk => {
            match package.parameter {
                Some(1) => Some(walk(0, -1, state, screen)),
                Some(2) => Some(walk(1, 0, state, screen)),
                Some(3) => Some(walk(0, 1, state, screen)),
                Some(4) => Some(walk(-1, 0, state, screen)),
                _ => None,
            }
        },
        Command::reset => Some(reset(state, screen)),
        Command::switch => Some(switch_view(state, screen)),
        Command::step => Some(request_steps(state)),
        _ => None,
    }
}

/// A step moves the walker by at most one position on each axis, keeps it
/// on the frame buffer, counts exactly one step, and, while the log has
/// room, logs the new position last.
pub proof fn lemma_step_is_local(s: StateView, dx: int, dy: int)
    requires
        state_wf(s),
        -1 <= dx <= 1,
        -1 <= dy <= 1,
        s.steps < u32::MAX,
    ensures
        state_wf(walked(s, dx, dy)),
        -1 <= walked(s, dx, dy).x - s.x <= 1,
        -1 <= walked(s, dx, dy).y - s.y <= 1,
        walked(s, dx, dy).steps == s.steps + 1,
        walked(s, dx, dy).map_view == s.map_view,
        s.visited.len() < VISITED_CAPACITY ==> walked(s, dx, dy).visited.last() == (
            walked(s, dx, dy).x,
            walked(s, dx, dy).y,
        ),
        s.visited.len() < VISITED_CAPACITY ==> walked(s, dx, dy).visited.drop_last() == s.visited,
{
    let t = walked(s, dx, dy);
    if s.visited.len() < VISITED_CAPACITY {
        assert(t.visited.drop_last() =~= s.visited);
    }
}

/// Away from the edges, a step and the opposite step bring the walker back
/// to where it was.
pub proof fn lemma_step_back(s: StateView, dx: int, dy: int)
    requires
        state_wf(s),
        0 <= s.x + dx < 128,
        0 <= s.y + dy < 80,
    ensures
        walked(walked(s, dx, dy), -dx, -dy).x == s.x,
        walked(walked(s, dx, dy), -dx, -dy).y == s.y,
{
}

/// Every direction the host can name is a step the board takes, and
/// opposite directions are opposite steps.
pub proof fn lemma_directions_understood(d: crate::protocol::Direction)
    ensures
        walk_delta(Some(d.code())) is Some,
        walk_delta(Some(d.code())).unwrap().0 + walk_delta(Some(opposite(d).code())).unwrap().0
            == 0,
        walk_delta(Some(d.code())).unwrap().1 + walk_delta(Some(opposite(d).code())).unwrap().1
            == 0,
{
}

/// The opposite compass direction.
pub open spec fn opposite(d: crate::protocol::Direction) -> crate::protocol::Direction {
    match d {
        crate::protocol::Direction::North => crate::protocol::Direction::South,
        crate::protocol::Direction::East => crate::protocol::Direction::West,
        crate::protocol::Direction::South => crate::protocol::Direction::North,
        crate::protocol::Direction::West => crate::protocol::Direction::East,
    }
}

/// Switching the view twice gives back the walker as it was.
pub proof fn lemma_switch_twice(s: StateView)
    ensures
        switched(switched(s)) == s,
{
}

/// A reset puts the walker back to its power-up position and count with
/// only the centre logged, whatever it was before, and keeps the view; a
/// second reset changes nothing more.
pub proof fn lemma_reset_restarts(s: StateView)
    ensures
        reset_state(s).x == initial_state().x,
        reset_state(s).y == initial_state().y,
        reset_state(s).steps == initial_state().steps,
        reset_state(s).map_view == s.map_view,
        reset_state(s).visited == seq![(initial_state().x, initial_state().y)],
        reset_state(reset_state(s)) == reset_state(s),
        state_wf(reset_state(s)),
{
}

/// Packages that ask for nothing the board does (exit, or a walk without a
/// known direction) change neither the walker nor the display and get no
/// answer.
pub proof fn lemma_ignored_packages(p: Package, s: StateView, scr: ScreenView, font: Seq<Seq<Seq<bool>>>, colors: crate::screen::Palette)
    requires
        p.command == Command::exit || (p.command == Command::walk && walk_delta(p.parameter) is None),
    ensures
        handled_state(p, s) == s,
        handled_screen(p, s, scr, font, colors) == scr,
        handled_reply(p, s) is None,
{
}

/// Asking for the step count changes nothing and answers the count.
pub proof fn lemma_step_request_reads_only(p: Package, s: StateView, scr: ScreenView, font: Seq<Seq<Seq<bool>>>, colors: crate::screen::Palette)
    requires
        p.command == Command::step,
    ensures
        handled_state(p, s) == s,
        handled_screen(p, s, scr, font, colors) == scr,
        handled_reply(p, s) == Some(Reply::Steps(s.steps)),
{
}

/// Whether every logged position lies on the drawable part of the panel.
fn path_is_drawable(state: &State) -> (r: bool)
    ensures
        r == path_drawable(state@.visited),
{
    let visited = visited_as_slice(&state.visited);
    let mut i: usize = 0;
    while i < visited.len()
        invariant
            i <= visited@.len(),
            visited@ == state@.visited,
            forall|k: int| 0 <= k < i ==> #[trigger] visited@[k].0 < 128 && visited@[k].1 < 80,
        decreases visited@.len() - i,
    {
        let (x, y) = visited[i];
        if x >= 128 || y >= 80 {
            return false;
        }
        i = i + 1;
    }
    true
}

/// Whether handling `package` stays on the drawable part of the panel and
/// within the counter's range, so that `handle_package` may be called.
pub fn can_handle_package(package: &Package, state: &State, screen: &Screen) -> (r: bool)
    requires
        state_wf(state@),
        screen.wf(),
    ensures
        r == can_handle(*package, state@, screen.font()),
{
    match package.command {
        Command::walk => {
            let (dx, dy): (i16, i16) = match package.parameter {
                Some(1) => (0, -1),
                Some(2) => (1, 0),
                Some(3) => (0, 1),
                Some(4) => (-1, 0),
                _ => {
                    return true;
                },
            };
            if state.steps == u32::MAX {
                return false;
            }
            state.map_view || screen.number_fits_at(COUNTER_X, COUNTER_Y, state.steps + 1)
        },
        Command::reset => state.map_view || screen.number_fits_at(COUNTER_X, COUNTER_Y, 0),
        Command::switch => if state.map_view {
            screen.number_fits_at(COUNTER_X, COUNTER_Y, state.steps)
        } else {
            path_is_drawable(state)
        },
        _ => true,
    }
}

/// Every walk the host reads from a command line becomes a package that the
/// board takes as a step.
pub proof fn lemma_typed_walks_are_taken(line: Seq<char>)
    requires
        request_of(line) is Walk,
    ensures
        package_of(request_of(line)) is Some,
        package_of(request_of(line)).unwrap().command == Command::walk,
        walk_delta(package_of(request_of(line)).unwrap().parameter) is Some,
{
    if let RequestView::Walk(d) = request_of(line) {
        lemma_directions_understood(d);
    }
}

} // verus!
