use pixel_walker::command::{can_handle_package, handle_package, request_steps, reset, switch_view, walk, Reply, State};
use pixel_walker::protocol::{Command, Package};
use pixel_walker::screen::{BusOp, Brightness, Character, Palette, Screen};

fn dot() -> Character {
    vec![vec![true]]
}

fn palette() -> Palette {
    Palette {
        white: Brightness { level: 15 },
        black: Brightness { level: 0 },
        path: Brightness { level: 7 },
    }
}

fn screen() -> Screen {
    let numbers: Vec<Character> = (0..10).map(|_| dot()).collect();
    Screen::new(numbers, palette())
}

#[test]
fn draw_pixel_sets_nibbles_and_queues() {
    let mut s = screen();
    s.draw_pixel(5, 3, Brightness { level: 0xA });
    assert_eq!(s.fb()[3][2], 0x0A);
    s.draw_pixel(4, 3, Brightness { level: 0x3 });
    assert_eq!(s.fb()[3][2], 0x3A);
    let ops = s.take_ops();
    assert_eq!(
        ops[..9].to_vec(),
        vec![
            BusOp::CommandMode,
            BusOp::Write(0x15),
            BusOp::Write(2),
            BusOp::Write(127),
            BusOp::Write(0x75),
            BusOp::Write(3),
            BusOp::Write(79),
            BusOp::DataMode,
            BusOp::Write(0x0A),
        ]
    );
    assert_eq!(ops[17], BusOp::Write(0x3A));
    assert_eq!(ops.len(), 18);
    assert!(s.take_ops().is_empty());
}

#[test]
fn clear_fills_every_byte() {
    let mut s = screen();
    s.clear(Brightness { level: 0x5 });
    for row in s.fb().iter() {
        for b in row.iter() {
            assert_eq!(*b, 0x55);
        }
    }
    let ops = s.take_ops();
    assert_eq!(ops.len(), 8 + 80 * 64);
    assert_eq!(ops[1], BusOp::Write(0x75));
    assert_eq!(ops[4], BusOp::Write(0x15));
    assert!(ops[8..].iter().all(|o| *o == BusOp::Write(0x55)));
}

#[test]
fn redraw_sends_rows_in_order() {
    let mut s = screen();
    s.draw_pixel(3, 2, Brightness { level: 9 });
    s.take_ops();
    s.redraw_fb();
    let ops = s.take_ops();
    assert_eq!(ops.len(), 8 + 80 * 64);
    assert_eq!(ops[8 + 2 * 64 + 1], BusOp::Write(0x09));
    assert_eq!(ops[8], BusOp::Write(0));
}

#[test]
fn draw_char_draws_set_pixels_only() {
    let mut s = screen();
    let glyph: Character = vec![vec![true, false], vec![false, true]];
    s.draw_char(10, 10, &glyph, Brightness { level: 1 });
    assert_eq!(s.fb()[10][5], 0x10);
    assert_eq!(s.fb()[11][5], 0x01);
    assert_eq!(s.take_ops().len(), 18);
}

#[test]
fn draw_number_places_digits_twelve_apart() {
    let mut s = screen();
    s.draw_number(40, 20, 305, Brightness { level: 2 });
    assert_eq!(s.fb()[20][20], 0x20);
    assert_eq!(s.fb()[20][26], 0x20);
    assert_eq!(s.fb()[20][32], 0x20);
    assert_eq!(s.take_ops().len(), 27);
    s.draw_number(0, 0, 0, Brightness { level: 2 });
    assert_eq!(s.take_ops().len(), 9);
}

#[test]
fn new_state_in_centre() {
    let st = State::new();
    assert_eq!((st.x, st.y, st.steps, st.map_view), (64, 40, 0, true));
    assert!(st.visited.is_empty());
}

#[test]
fn walk_moves_counts_and_logs() {
    let mut st = State::new();
    let mut s = screen();
    assert_eq!(walk(1, 0, &mut st, &mut s), Reply::Walked);
    assert_eq!((st.x, st.y, st.steps), (65, 40, 1));
    assert_eq!(st.visited.as_slice(), &[(65, 40)]);
    assert_eq!(s.fb()[40][32], 0x07);
}

#[test]
fn walk_stops_at_edges() {
    let mut st = State::new();
    let mut s = screen();
    st.x = 0;
    st.y = 0;
    walk(-1, -1, &mut st, &mut s);
    assert_eq!((st.x, st.y), (0, 0));
    st.x = 127;
    walk(1, 0, &mut st, &mut s);
    assert_eq!(st.x, 127);
}

#[test]
fn walk_in_step_view_redraws_counter() {
    let mut st = State::new();
    let mut s = screen();
    st.map_view = false;
    walk(0, 1, &mut st, &mut s);
    assert_eq!(st.steps, 1);
    assert_eq!(s.fb()[20][20], 0x0F);
    assert_eq!(s.fb()[0][0], 0xFF);
}

#[test]
fn reset_restarts_walker() {
    let mut st = State::new();
    let mut s = screen();
    walk(1, 1, &mut st, &mut s);
    walk(1, 1, &mut st, &mut s);
    assert_eq!(reset(&mut st, &mut s), Reply::Reset);
    assert_eq!((st.x, st.y, st.steps), (64, 40, 0));
    assert_eq!(st.visited.as_slice(), &[(64, 40)]);
    assert_eq!(s.fb()[40][32], 0x0F);
    assert_eq!(s.fb()[41][32], 0xFF);
}

#[test]
fn switch_view_twice() {
    let mut st = State::new();
    let mut s = screen();
    walk(1, 0, &mut st, &mut s);
    walk(1, 0, &mut st, &mut s);
    assert_eq!(switch_view(&mut st, &mut s), Reply::StepView);
    assert!(!st.map_view);
    assert_eq!(switch_view(&mut st, &mut s), Reply::MapView);
    assert!(st.map_view);
    assert_eq!(s.fb()[40][32], 0xF0);
    assert_eq!(s.fb()[40][33], 0x7F);
}

#[test]
fn steps_are_reported() {
    let mut st = State::new();
    let mut s = screen();
    walk(0, 1, &mut st, &mut s);
    assert_eq!(request_steps(&st), Reply::Steps(1));
}

#[test]
fn handle_package_dispatch() {
    let mut st = State::new();
    let mut s = screen();
    let walk_n = Package { command: Command::walk, parameter: Some(1) };
    assert_eq!(handle_package(&walk_n, &mut st, &mut s), Some(Reply::Walked));
    assert_eq!((st.x, st.y), (64, 39));
    let walk_e = Package { command: Command::walk, parameter: Some(2) };
    handle_package(&walk_e, &mut st, &mut s);
    assert_eq!((st.x, st.y), (65, 39));
    let walk_s = Package { command: Command::walk, parameter: Some(3) };
    handle_package(&walk_s, &mut st, &mut s);
    assert_eq!((st.x, st.y), (65, 40));
    let walk_w = Package { command: Command::walk, parameter: Some(4) };
    handle_package(&walk_w, &mut st, &mut s);
    assert_eq!((st.x, st.y, st.steps), (64, 40, 4));
    let bad = Package { command: Command::walk, parameter: Some(9) };
    assert_eq!(handle_package(&bad, &mut st, &mut s), None);
    let none = Package { command: Command::walk, parameter: None };
    assert_eq!(handle_package(&none, &mut st, &mut s), None);
    let exit = Package { command: Command::exit, parameter: None };
    s.take_ops();
    assert_eq!(handle_package(&exit, &mut st, &mut s), None);
    assert!(s.take_ops().is_empty());
    let step = Package { command: Command::step, parameter: None };
    assert_eq!(handle_package(&step, &mut st, &mut s), Some(Reply::Steps(4)));
    let switch = Package { command: Command::switch, parameter: None };
    assert_eq!(handle_package(&switch, &mut st, &mut s), Some(Reply::StepView));
    let rst = Package { command: Command::reset, parameter: None };
    assert_eq!(handle_package(&rst, &mut st, &mut s), Some(Reply::Reset));
    assert_eq!(st.steps, 0);
}

#[test]
fn step_and_step_back() {
    let mut st = State::new();
    let mut s = screen();
    walk(0, 1, &mut st, &mut s);
    walk(0, -1, &mut st, &mut s);
    assert_eq!((st.x, st.y, st.steps), (64, 40, 2));
    assert_eq!(st.visited.as_slice(), &[(64, 41), (64, 40)]);
}

#[test]
fn typed_walk_is_taken() {
    let mut st = State::new();
    let mut s = screen();
    let p = pixel_walker::cli::parse_command("walk w").request.package().unwrap();
    assert_eq!(handle_package(&p, &mut st, &mut s), Some(Reply::Walked));
    assert_eq!((st.x, st.y), (63, 40));
}

#[test]
fn can_handle_checks_the_drawable_area() {
    let mut st = State::new();
    let s = screen();
    let south = Package { command: Command::walk, parameter: Some(3) };
    assert!(can_handle_package(&south, &st, &s));
    st.y = 79;
    assert!(can_handle_package(&south, &st, &s));
    st.map_view = false;
    assert!(can_handle_package(&south, &st, &s));
    st.steps = u32::MAX;
    assert!(!can_handle_package(&south, &st, &s));
    let exit = Package { command: Command::exit, parameter: None };
    assert!(can_handle_package(&exit, &st, &s));
}

#[test]
fn numbers_fit_check() {
    let s = screen();
    assert!(s.number_fits_at(40, 20, 1234567));
    assert!(s.number_fits_at(40, 20, 12345678));
    assert!(!s.number_fits_at(40, 20, 123456789));
    assert!(s.number_fits_at(0, 79, 1));
    assert!(!s.number_fits_at(0, 80, 1));
    assert!(s.number_fits_at(120, 0, 7));
}

#[test]
fn draw_char_column_numbers_wrap_at_256() {
    let mut s = screen();
    let mut row = vec![false; 258];
    row[257] = true;
    let glyph: Character = vec![row];
    s.draw_char(0, 0, &glyph, Brightness { level: 3 });
    assert_eq!(s.fb()[0][0], 0x03);
}

#[test]
fn walking_onto_the_bottom_rows() {
    let mut st = State::new();
    let mut s = screen();
    st.y = 78;
    walk(0, 1, &mut st, &mut s);
    assert_eq!(st.y, 79);
    assert_eq!(s.fb()[79][32], 0x70);
    walk(0, 1, &mut st, &mut s);
    assert_eq!((st.y, st.steps), (79, 2));
    s.draw_pixel(1, 70, Brightness { level: 4 });
    assert_eq!(s.fb()[70][0], 0x04);
}
