use buitenzorg::gfx::Canvas;
use buitenzorg::screensaver::{self, Config, Saver};
use buitenzorg::script::{self, Lang, Sym, Tok};

fn canvas(w: usize, h: usize) -> Canvas {
    Canvas::new(vec![0u32; w * h], w, h)
}

#[test]
fn shallow_line_follows_bresenham() {
    let mut c = canvas(4, 2);
    c.draw_line(0, 0, 3, 1, 7);
    assert_eq!(c.pixels, vec![7, 7, 0, 0, 0, 0, 7, 7]);
}

#[test]
fn line_off_canvas_ends_are_clipped() {
    let mut c = canvas(3, 3);
    c.draw_line(-2, 1, 5, 1, 9);
    assert_eq!(c.pixels, vec![0, 0, 0, 9, 9, 9, 0, 0, 0]);
}

#[test]
fn bouncing_draws_discs_on_black() {
    let mut c = canvas(64, 64);
    let cfg = Config { saver: Saver::Bouncing, enabled: true, timeout: 60 };
    screensaver::render(&mut c, &cfg, 3);
    assert!(c.pixels.iter().any(|&p| p != 0));
}

#[test]
fn pipes_start_empty_and_grow() {
    let cfg = Config { saver: Saver::Pipes, enabled: true, timeout: 60 };
    let mut c = canvas(48, 48);
    screensaver::render(&mut c, &cfg, 0);
    assert!(c.pixels.iter().all(|&p| p == 0));
    let mut d = canvas(48, 48);
    screensaver::render(&mut d, &cfg, 5);
    assert!(d.pixels.iter().any(|&p| p != 0));
}

#[test]
fn mystify_outlines_two_polygons() {
    let cfg = Config { saver: Saver::Mystify, enabled: true, timeout: 60 };
    let mut c = canvas(64, 64);
    screensaver::render(&mut c, &cfg, 10);
    assert!(c.pixels.iter().any(|&p| p == 0x4ED1FF));
    assert!(c.pixels.iter().any(|&p| p == 0xFF6EC7));
}

#[test]
fn empty_programs_parse_to_nothing() {
    assert_eq!(script::parse_js(Vec::new()).unwrap().len(), 0);
    let blank = vec![Tok::P(Sym::Newline), Tok::P(Sym::Newline)];
    assert_eq!(script::parse_py(blank).unwrap().len(), 0);
}

#[test]
fn host_bindings_on_literals() {
    let out = script::run(Lang::Js, "print(str(12), len(\"abc\"), abs(-5));");
    assert_eq!(out.error, None);
    assert_eq!(out.lines, vec!["12 3 5".to_string()]);
}

#[test]
fn unknown_function_is_reported() {
    let out = script::run(Lang::Python, "frobnicate()\n");
    assert_eq!(out.error, Some("fungsi 'frobnicate' tak dikenal".to_string()));
}

#[test]
fn kill_terminates_a_blocked_task() {
    let mut s = buitenzorg::task::init();
    let a = buitenzorg::task::spawn(&mut s);
    let _b = buitenzorg::task::spawn(&mut s);
    let _ = buitenzorg::task::yield_now(&mut s);
    assert_eq!(buitenzorg::task::current_id(&s), a);
    assert!(buitenzorg::task::futex_wait_block(&mut s, 7));
    assert!(buitenzorg::task::kill(&mut s, a));
    assert!(buitenzorg::task::is_finished(&s, a));
    assert!(!buitenzorg::task::kill(&mut s, a));
    assert!(!buitenzorg::task::kill(&mut s, 0));
}
