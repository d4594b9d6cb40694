use idos::api::io::{DriverCommand, IoError, Message};
use idos::api::termios::{Termios, TCGETS, TCSETS, TSETGFX, TSETTEXT, TSETTITLE, TGETPAL, TSETPAL};
use idos::console::compositor::{ColorDepth, Compositor, WindowMode};
use idos::console::decor::{Decor, FlatDecor};
use idos::console::font::{BitmapFont, Font};
use idos::console::graphics::{
    add_dirty_region, copy_rows, fill_block, fill_span, write_pixel, Framebuffer, Region, DESKTOP_BG,
};
use idos::console::hit::{HitMap, HitTarget, ScrollDirection};
use idos::console::input::{AltAction, KeyAction, KeyLayout, KeyState};
use idos::console::manager::{ConsoleManager, KeyOutcome};
use idos::console::screen::{Console, GraphicsBuffer};
use idos::console::session::{
    clock_due, console_device_path, desktop_click, fill_pattern, frame_timeout,
    framebuffer_pages, mode_bytes_per_pixel, KeyPairs, Mouse, Session,
};
use idos::console::slots::SlotList;
use idos::console::topbar::{draw, TopBarState};
use idos::console::ui::UiSurface;

fn region(x: u16, y: u16, width: u16, height: u16) -> Region {
    Region { x, y, width, height }
}

fn font() -> BitmapFont {
    BitmapFont { width: 8, height: 16, rows: vec![0xAAu8; 256 * 16] }
}

fn decor() -> FlatDecor {
    FlatDecor { button_count: 1, bar_height: 20 }
}

fn screen() -> Framebuffer {
    Framebuffer { width: 800, height: 600, stride: 2400, origin: 0, pixels: vec![0u8; 2400 * 600] }
}

fn palette() -> Vec<u32> {
    (0..256u32).map(|i| i * 0x010203 % 0x1000000).collect()
}

fn manager() -> ConsoleManager {
    let mut m = ConsoleManager::new();
    m.add_console(palette());
    m.add_console(palette());
    m
}

fn compositor() -> Compositor {
    let metrics = <FlatDecor as Decor<BitmapFont>>::metrics(&decor());
    Compositor::new(screen(), ColorDepth::Color888, metrics)
}

fn message(unique_id: u32, args: [u32; 6]) -> Message {
    Message { unique_id, args }
}

#[test]
fn pixels_by_depth() {
    let mut b = vec![0u8; 12];
    write_pixel(&mut b, 0, 0x112233, 3);
    assert_eq!(&b[..3], &[0x33, 0x22, 0x11]);
    write_pixel(&mut b, 4, 0x112233, 1);
    assert_eq!(&b[4..7], &[0x33, 0, 0]);
    write_pixel(&mut b, 8, 0x112233, 2);
    assert_eq!(&b[8..12], &[0, 0, 0, 0]);
    fill_span(&mut b, 0, 2, 0xffffff, 3);
    assert_eq!(&b[..6], &[0xff; 6]);
    let mut picture = vec![0u8; 16];
    fill_block(&mut picture, 5, 4, 2, 2, 7, 1);
    assert_eq!(picture, vec![0, 0, 0, 0, 0, 7, 7, 0, 0, 7, 7, 0, 0, 0, 0, 0]);
    let mut copy = vec![0u8; 4];
    copy_rows(&mut copy, 0, 2, &picture, 5, 4, 2, 2);
    assert_eq!(copy, vec![7, 7, 7, 7]);
}

#[test]
fn regions_merge() {
    let a = region(0, 0, 10, 10);
    let b = region(5, 5, 10, 10);
    assert!(a.intersects(&b));
    assert!(a.intersects(&region(10, 0, 5, 5)));
    assert!(!a.intersects(&region(11, 0, 5, 5)));
    assert_eq!(a.merge(&b), region(0, 0, 15, 15));
    assert!(a.merge(&b).fully_contains(&b));
    let mut dirty = vec![a, region(100, 100, 5, 5)];
    add_dirty_region(&mut dirty, b);
    assert!(dirty.iter().any(|r| r.fully_contains(&a)));
    assert!(dirty.iter().any(|r| r.fully_contains(&b)));
    assert!(dirty.iter().any(|r| r.fully_contains(&region(100, 100, 5, 5))));
}

#[test]
fn newest_zone_is_hit() {
    let mut map = HitMap::new();
    map.add(region(0, 0, 100, 100), HitTarget::WindowContent(1));
    map.add(region(50, 50, 100, 100), HitTarget::WindowTitleBar(2));
    assert_eq!(map.test(60, 60), Some(HitTarget::WindowTitleBar(2)));
    assert_eq!(map.test(10, 10), Some(HitTarget::WindowContent(1)));
    assert_eq!(map.test(200, 10), None);
    map.clear();
    assert_eq!(map.test(10, 10), None);
}

fn layout() -> KeyLayout {
    let mut characters = vec![(0u8, 0u8); 0x60];
    characters[0x41] = (b'a', b'A');
    KeyLayout { shift: 0x70, control: 0x71, alt: 0x72, q: 0x51, enter: 0x0d, tab: 9, space: 0x20, characters }
}

#[test]
fn keys_become_characters() {
    let l = layout();
    let mut k = KeyState::new();
    let mut b = [0u8; 4];
    assert_eq!(k.process_key_action(KeyAction::Press(0x41), &mut b, &l), Some(1));
    assert_eq!(b[0], b'a');
    k.process_key_action(KeyAction::Press(0x70), &mut b, &l);
    k.process_key_action(KeyAction::Press(0x41), &mut b, &l);
    assert_eq!(b[0], b'A');
    k.process_key_action(KeyAction::Release(0x70), &mut b, &l);
    assert_eq!(k, KeyState::new());
    k.process_key_action(KeyAction::Press(0x72), &mut b, &l);
    assert_eq!(k.check_alt_action(9, &l), Some(AltAction::CycleFocus));
    assert_eq!(KeyAction::from_raw(2, 7), Some(KeyAction::Release(7)));
    assert_eq!(KeyAction::from_raw(3, 7), None);
}

#[test]
fn slots_are_reused() {
    let mut s: SlotList<u32> = SlotList::new();
    assert_eq!(s.insert(10), 0);
    assert_eq!(s.insert(11), 1);
    assert_eq!(s.remove(0), Some(10));
    assert_eq!(s.insert(12), 0);
    assert_eq!(s.get(1), Some(&11));
    s.replace(3, 9);
    assert_eq!(s.get(2), None);
    assert_eq!(s.get(3), Some(&9));
}

#[test]
fn mouse_moves() {
    let mut m = Mouse::new(800, 600);
    assert_eq!((m.x, m.y), (400, 300));
    assert_eq!(m.receive(0x00, 800, 600), None);
    assert_eq!(m.received, 0);
    m.receive(0x09, 800, 600);
    m.receive(10, 800, 600);
    assert_eq!(m.receive(20, 800, 600), Some(true));
    assert_eq!((m.x, m.y), (410, 280));
    m.receive(0x38, 800, 600);
    m.receive(0, 800, 600);
    assert_eq!(m.receive(0, 800, 600), Some(false));
    assert_eq!((m.x, m.y), (154, 536));
    let mut k = KeyPairs { pending: 0 };
    assert_eq!(k.receive(1), None);
    assert_eq!(k.receive(0x41), Some(KeyAction::Press(0x41)));
}

#[test]
fn session_decisions() {
    assert_eq!(desktop_click(true, false, Some(HitTarget::DesktopTab(3))), Some(3));
    assert_eq!(desktop_click(true, true, Some(HitTarget::DesktopTab(3))), None);
    assert_eq!(frame_timeout(true, 100, 110), Some(6));
    assert_eq!(frame_timeout(true, 100, 200), Some(0));
    assert_eq!(frame_timeout(false, 100, 200), None);
    assert!(clock_due(10_000, 0) && !clock_due(9_999, 0));
    assert_eq!(console_device_path(0), b"DEV:\\CON1".to_vec());
    assert_eq!(mode_bytes_per_pixel(16), 2);
    assert_eq!(framebuffer_pages(2400, 600), 352);
}

#[test]
fn windows_come_and_go() {
    let mut c = compositor();
    for i in 0..5 {
        c.add_window(i);
    }
    assert_eq!(c.window_count(), 5);
    assert!(!c.is_window_floating(3));
    assert!(c.is_window_floating(4));
    c.try_toggle_window_mode(0);
    assert_eq!(c.windows[0].mode, WindowMode::Floating);
    assert_eq!(c.float_order, vec![4, 0]);
    c.raise_window(4);
    assert_eq!(c.float_order, vec![0, 4]);
    c.move_window(0, 33, 44);
    assert_eq!((c.get_window_x(0), c.get_window_y(0)), (33, 44));
    assert_eq!(c.window_console(2), 2);
    c.remove_window(1);
    assert_eq!(c.window_count(), 4);
    assert_eq!(c.window_console(1), 2);
}

#[test]
fn desktop_is_rendered() {
    let mut c = compositor();
    let mut m = manager();
    c.add_window(0);
    c.add_window(1);
    c.render(400, 300, &mut m, &font(), &decor());
    assert!(!c.force_redraw);
    assert_eq!((c.cursor_x, c.cursor_y), (400, 300));
    assert_eq!(c.windows.len(), 2);
    assert!(c.hit_map.test(360, 10).is_some());
    let at = |x: usize, y: usize| y * 2400 + x * 3;
    let corner = at(799, 599);
    assert_eq!(&c.fb.pixels[corner..corner + 3], &c.scratch.pixels[corner..corner + 3]);
    c.draw_bg(region(0, 100, 10, 10));
    let p = at(5, 105);
    assert_eq!(&c.scratch.pixels[p..p + 3], &[(DESKTOP_BG & 0xff) as u8, (DESKTOP_BG >> 8) as u8, (DESKTOP_BG >> 16) as u8]);
}

#[test]
fn frames_that_do_not_fit_are_told() {
    let mut c = compositor();
    let m = manager();
    c.add_window(0);
    assert!(c.can_render(400, 300, &m, &font(), &decor()));
    assert!(!c.can_render(801, 300, &m, &font(), &decor()));
    let other = FlatDecor { button_count: 2, bar_height: 20 };
    assert!(!c.can_render(400, 300, &m, &font(), &other));
    c.add_window(7);
    assert!(!c.can_render(400, 300, &m, &font(), &decor()));
}

#[test]
fn session_of_frames() {
    let mut s = Session::new(800, 600, 1_000);
    let mut bar = TopBarState::new();
    assert_eq!((s.mouse.x, s.mouse.y), (400, 300));
    assert!(!s.pointer_moved());
    for byte in [0x09, 5, 7] {
        s.mouse.receive(byte, 800, 600);
    }
    assert!(s.pointer_moved());
    s.frame_drawn();
    assert!(!s.pointer_moved());
    s.point(Some(HitTarget::DesktopTab(3)), true, &mut bar);
    assert_eq!((bar.hover, bar.active_desktop), (Some(HitTarget::DesktopTab(3)), 3));
    s.point(Some(HitTarget::DesktopTab(4)), true, &mut bar);
    assert_eq!((bar.hover, bar.active_desktop), (Some(HitTarget::DesktopTab(4)), 3));
    s.point(None, false, &mut bar);
    assert_eq!((bar.hover, bar.active_desktop), (None, 3));
    assert!(!s.clock_turns(10_999));
    assert!(s.clock_turns(11_000));
    assert!(!s.clock_turns(12_000));
}

#[test]
fn blank_screen_shows_a_pattern() {
    let mut fb = Framebuffer { width: 4, height: 3, stride: 5, origin: 0, pixels: vec![7u8; 15] };
    fill_pattern(&mut fb, 1);
    assert_eq!(fb.pixels, vec![0, 0, 255, 255, 7, 0, 0, 255, 255, 7, 255, 255, 0, 0, 7]);
}

#[test]
fn window_is_dragged() {
    let mut c = compositor();
    let mut m = manager();
    c.add_window(0);
    c.try_toggle_window_mode(0);
    c.render(10, 40, &mut m, &font(), &decor());
    let size = c.drag_snapshot_size(0);
    assert!(size.is_some());
    c.begin_drag(0, &mut m, &font(), &decor(), Some(vec![0u8; size.unwrap()]));
    assert!(c.is_dragging());
    c.move_window(0, 60, 70);
    c.render_drag(12, 42);
    c.end_drag();
    assert!(!c.is_dragging());
    assert!(c.force_redraw);
}

#[test]
fn top_bar_is_drawn() {
    let mut surface = UiSurface::new(screen(), 3, Vec::new());
    let mut hits = HitMap::new();
    let mut state = TopBarState::new();
    state.set_window_name(b"COMMAND");
    draw(&mut surface, &mut hits, &mut state, &font(), 800);
    assert_eq!(hits.test(360, 10), Some(HitTarget::DesktopTab(2)));
    assert!(!surface.dirty.is_empty());
    assert!(!state.needs_full_draw);
    assert_eq!(font().compute_width(b"abc"), 24);
}

#[test]
fn console_files() {
    let mut m = manager();
    let mut none = Vec::new();
    let r = m.handle_request(7, DriverCommand::OpenRaw, &message(1, [1, 0, 0, 0, 0, 0]), &mut none);
    assert_eq!(r, Some(Ok(0)));
    let r = m.handle_request(7, DriverCommand::OpenRaw, &message(1, [9, 0, 0, 0, 0, 0]), &mut none);
    assert_eq!(r, Some(Err(IoError::NotFound)));
    let mut text = b"hello".to_vec();
    let r = m.handle_request(7, DriverCommand::Write, &message(2, [0, 0, 5, 0, 0, 0]), &mut text);
    assert_eq!(r, Some(Ok(5)));
    let mut record = vec![0u8; 36];
    assert_eq!(m.ioctl_struct(0, TCGETS, &mut record), Ok(1));
    let termios = Termios::from_record(&record);
    let mut expected = vec![0u8; 36];
    Termios::default().write_record(&mut expected);
    assert_eq!(record, expected);
    assert_eq!(termios.lflags, Termios::default().lflags);
    assert_eq!(m.ioctl_struct(0, TCSETS, &mut vec![0u8; 5]), Err(IoError::InvalidArgument));
    assert_eq!(m.ioctl_struct(0, TSETTITLE, &mut b"NAME".to_vec()), Ok(1));
    assert_eq!(m.consoles[1].title, b"NAME".to_vec());
    let mut colors = vec![0u8; 768];
    assert_eq!(m.ioctl_struct(0, TGETPAL, &mut colors), Ok(1));
    assert_eq!(m.ioctl_struct(0, TSETPAL, &mut colors), Ok(1));
    assert_eq!(m.consoles[1].terminal.palette, palette());
    assert_eq!(m.ioctl(9, TSETTEXT, 0), Err(IoError::FileHandleInvalid));
    let r = m.handle_request(7, DriverCommand::Close, &message(3, [0, 0, 0, 0, 0, 0]), &mut none);
    assert_eq!(r, Some(Ok(1)));
    let r = m.handle_request(7, DriverCommand::Close, &message(3, [0, 0, 0, 0, 0, 0]), &mut none);
    assert_eq!(r, Some(Err(IoError::FileHandleInvalid)));
}

#[test]
fn reads_wait_for_input() {
    let mut m = manager();
    let mut none = Vec::new();
    m.handle_request(7, DriverCommand::OpenRaw, &message(1, [0, 0, 0, 0, 0, 0]), &mut none);
    let mut buffer = vec![0u8; 4];
    assert_eq!(m.read(11, 0, 0x100, &mut buffer), None);
    assert_eq!(m.handle_key_action(KeyAction::Press(0x41), &layout()), KeyOutcome::Typed(b'a'));
    let done = m.input_flushed(b"abcdef");
    assert_eq!(done.len(), 1);
    let mut buffer = vec![0u8; 4];
    assert_eq!(m.read(12, 0, 0x100, &mut buffer), Some(Ok(2)));
    assert_eq!(&buffer[..2], b"ef");
    m.handle_key_action(KeyAction::Press(0x72), &layout());
    assert_eq!(
        m.handle_key_action(KeyAction::Press(0x20), &layout()),
        KeyOutcome::Shortcut(AltAction::ToggleFloat)
    );
}

#[test]
fn graphics_and_scrolling() {
    let mut m = manager();
    let mut none = Vec::new();
    m.handle_request(7, DriverCommand::OpenRaw, &message(1, [0, 0, 0, 0, 0, 0]), &mut none);
    let mut mode = vec![64, 1, 200, 0, 8, 0, 0, 0, 0, 0, 0, 0];
    assert_eq!(m.ioctl_struct(0, TSETGFX, &mut mode), Ok(1));
    assert!(m.consoles[0].terminal.graphics_request.is_some());
    assert!(!m.any_graphics());
    m.attach_graphics(
        0,
        GraphicsBuffer { width: 320, height: 200, bits_per_pixel: 8, pixels: vec![0; 64000], dirty: None },
    );
    assert!(m.any_graphics());
    m.clear_dirty();
    assert!(m.needs_render(true));
    assert!(!m.scroll_console(0, ScrollDirection::Up));
    m.consoles[0].max_scroll_row = 5;
    assert!(m.scroll_console(0, ScrollDirection::Up));
    assert_eq!(m.consoles[0].scroll_row, Some(4));
    m.consoles[0].scroll_row = Some(90);
    assert!(m.scroll_console(0, ScrollDirection::Up));
    assert_eq!(m.consoles[0].scroll_row, Some(4));
    m.consoles[0].scroll_row = Some(usize::MAX);
    assert!(m.scroll_console(0, ScrollDirection::Down));
    assert_eq!(m.consoles[0].scroll_row, None);
    assert!(!m.scroll_console(0, ScrollDirection::Down));
    m.consoles[0].scroll_col = Some(9);
    assert!(m.scroll_console(0, ScrollDirection::Left));
    assert_eq!(m.consoles[0].scroll_col, Some(0));
    assert!(!m.scroll_console(0, ScrollDirection::Right));
    let mut c = Console::new(palette());
    c.add_reader_task(4);
    c.remove_reader_task(4);
    assert!(c.readers.is_empty());
}
