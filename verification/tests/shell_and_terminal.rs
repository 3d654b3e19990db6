use buitenzorg::fat::format_fat12;
use buitenzorg::model::ModelRegistry;
use buitenzorg::pkg::PkgState;
use buitenzorg::power::Power;
use buitenzorg::ramdisk::{self, RamDisk};
use buitenzorg::screensaver;
use buitenzorg::shell::{self, Effect, Request, ShellState, System};
use buitenzorg::terminal::{self, Terminal};
use buitenzorg::theme::ThemeState;
use buitenzorg::vfs::{self, Vfs};
use buitenzorg::wallpaper::Wallpaper;
use buitenzorg::wm;

fn disk(name: &str) -> RamDisk {
    let mut d = ramdisk::new(name, 2880);
    format_fat12(&mut d).unwrap();
    d
}

fn system() -> System<RamDisk> {
    let mut v: Vfs<RamDisk> = Vfs::new();
    vfs::mount(&mut v, "disk", disk("disk0"), false).unwrap();
    vfs::mount(&mut v, "ram", disk("ram0"), false).unwrap();
    System {
        shell: ShellState { cwd: String::new() },
        vfs: v,
        theme: ThemeState::new(),
        wm: wm::init(640, 480),
        wallpaper: Wallpaper::new(),
        saver: screensaver::Config::new(),
        pkgs: PkgState::new(),
        models: ModelRegistry::new(),
        power: Power::none(),
    }
}

fn lines(sys: &mut System<RamDisk>, line: &str) -> Vec<String> {
    shell::run(sys, line).0
}

#[test]
fn words_split_on_unicode_whitespace() {
    assert_eq!(shell::split_words("  ls \t /disk\u{3000}x  "), vec!["ls", "/disk", "x"]);
    assert!(shell::split_words(" \n ").is_empty());
}

#[test]
fn echo_pwd_ver_and_unknown() {
    let mut sys = system();
    assert_eq!(lines(&mut sys, "echo  halo    dunia "), vec!["halo dunia"]);
    assert_eq!(lines(&mut sys, "pwd"), vec!["/disk"]);
    assert_eq!(shell::prompt(&sys), "buitenzorg:/disk$ ");
    assert_eq!(lines(&mut sys, "uname"), vec!["Buitenzorg OS v0.12 'Nalar' -- Gravicode Studios (Kang Fadhil)"]);
    assert_eq!(lines(&mut sys, "frobnicate now"), vec!["frobnicate: command not found (try 'help')"]);
    let (out, eff, req) = shell::run(&mut sys, "   ");
    assert!(out.is_empty());
    assert_eq!(eff, Effect::Nothing);
    assert!(matches!(req, Request::Nothing));
    let (out, eff, _) = shell::run(&mut sys, "cls");
    assert!(out.is_empty());
    assert_eq!(eff, Effect::Clear);
    assert_eq!(lines(&mut sys, "help").len(), 21);
    assert_eq!(lines(&mut sys, "about")[0], "Buitenzorg OS");
}

#[test]
fn cd_moves_only_into_mounts() {
    let mut sys = system();
    assert_eq!(lines(&mut sys, "cd /nope"), vec!["cd: /nope: tidak ada"]);
    assert_eq!(lines(&mut sys, "pwd"), vec!["/disk"]);
    assert!(lines(&mut sys, "cd /ram").is_empty());
    assert_eq!(lines(&mut sys, "pwd"), vec!["/ram"]);
    assert_eq!(shell::prompt(&sys), "buitenzorg:/ram$ ");
    assert_eq!(lines(&mut sys, "mounts"), vec!["/disk", "/ram"]);
}

#[test]
fn files_list_and_print() {
    let mut sys = system();
    vfs::write(&mut sys.vfs, "/disk/HALO.TXT", b"baris satu\r\nbaris dua\n").unwrap();
    assert_eq!(lines(&mut sys, "ls"), vec!["HALO.TXT"]);
    assert_eq!(lines(&mut sys, "dir /ram"), vec!["/ram: (kosong)"]);
    assert_eq!(lines(&mut sys, "cat HALO.TXT"), vec!["baris satu", "baris dua"]);
    assert_eq!(lines(&mut sys, "cat"), vec!["cat: butuh nama file"]);
    let missing = lines(&mut sys, "ls /x/y");
    assert_eq!(missing.len(), 1);
    assert!(missing[0].starts_with("ls: /x/y: "));
}

#[test]
fn theme_and_workspace_commands() {
    let mut sys = system();
    let list = lines(&mut sys, "theme list");
    assert_eq!(list.len(), 11);
    assert_eq!(list[0], "tema tersedia:");
    assert_eq!(list.iter().filter(|l| l.starts_with("* ")).count(), 1);
    let (out, eff, _) = shell::run(&mut sys, "ws 2");
    assert_eq!(out, vec!["pindah ke desktop 2"]);
    assert_eq!(eff, Effect::Redraw);
    assert_eq!(lines(&mut sys, "ws"), vec!["workspace: 2"]);
    assert_eq!(lines(&mut sys, "ws 9"), vec!["ws: nomor 1..4"]);
    assert_eq!(lines(&mut sys, "theme nope"), vec!["theme: 'nope' tidak dikenal (coba 'theme list')"]);
}

#[test]
fn power_commands_become_requests() {
    let mut sys = system();
    assert!(matches!(shell::run(&mut sys, "shutdown").2, Request::Shutdown));
    assert!(matches!(shell::run(&mut sys, "reboot").2, Request::Restart));
    let (out, eff, req) = shell::run(&mut sys, "sleep");
    assert_eq!(out, vec!["bangun dari sleep"]);
    assert_eq!(eff, Effect::Redraw);
    assert!(matches!(req, Request::Sleep));
    assert!(matches!(shell::run(&mut sys, "bz power off").2, Request::Shutdown));
    let status = lines(&mut sys, "bz power");
    assert_eq!(status[0], "power: acpi=false pm1a_cnt=0x0 slp_typ_s5=0 reset_port=0x0");
}

#[test]
fn packages_gate_app_launches() {
    let mut sys = system();
    assert_eq!(lines(&mut sys, "bz"), vec!["bz 0.12.0 'Nalar' - Buitenzorg CLI"]);
    assert_eq!(lines(&mut sys, "run nothing"), vec!["run: 'nothing' tidak dikenal (lihat 'bz list')"]);
    assert_eq!(
        lines(&mut sys, "run xox"),
        vec!["run: 'xox' belum terpasang \u{2014} jalankan 'bz install xox'"]
    );
    assert_eq!(lines(&mut sys, "bz install xox"), vec!["bz install: xox: package payload missing on /disk"]);
    vfs::write(&mut sys.vfs, "/disk/XOX.ELF", b"\x7fELF").unwrap();
    assert_eq!(lines(&mut sys, "bz install xox"), vec!["terpasang: xox v0.8.0"]);
    assert_eq!(lines(&mut sys, "bz install xox"), vec!["bz install: xox: already installed"]);
    let (out, _, req) = shell::run(&mut sys, "run xox");
    assert!(out.is_empty());
    match req {
        Request::Run(name) => assert_eq!(name, "xox"),
        _ => panic!("expected a launch request"),
    }
    let listed = lines(&mut sys, "bz list game");
    assert_eq!(listed[0], "registry paket:");
    assert_eq!(listed.len(), 2);
    assert_eq!(listed[1], format!("[x] {:<10} {:<7} {} ({})", "xox", "0.8.0", "Tic-Tac-Toe game", "desktop"));
    assert_eq!(lines(&mut sys, "bz remove xox"), vec!["dihapus: xox"]);
    assert_eq!(lines(&mut sys, "bz remove xox"), vec!["bz remove: xox: not installed"]);
    assert_eq!(lines(&mut sys, "bz frob"), vec!["bz frob: belum tersedia (lihat roadmap \u{a7}16)"]);
    let (report, eff) = shell::run_outcome("xox", Ok(3));
    assert_eq!(report, vec!["app 'xox' selesai (exit 3)"]);
    assert_eq!(eff, Effect::Redraw);
    assert_eq!(shell::run_outcome("xox", Err("app not found on /disk")).0, vec!["run: xox: app not found on /disk"]);
}

#[test]
fn personalization_commands() {
    let mut sys = system();
    assert_eq!(lines(&mut sys, "saver mystify"), vec!["screensaver: mystify"]);
    assert_eq!(lines(&mut sys, "saver off"), vec!["screensaver: off"]);
    assert_eq!(lines(&mut sys, "saver list").len(), 8);
    assert_eq!(lines(&mut sys, "bg waves"), vec!["wallpaper: waves"]);
    assert_eq!(lines(&mut sys, "bg"), vec!["wallpaper: waves"]);
    assert_eq!(lines(&mut sys, "cursor besar"), vec!["kursor: besar"]);
    assert_eq!(lines(&mut sys, "anim off"), vec!["animasi: off"]);
    let settings = lines(&mut sys, "settings");
    assert_eq!(settings.len(), 7);
    assert_eq!(settings[3], "  saver     : off");
    assert_eq!(settings[4], "  animasi   : off");
}

#[test]
fn ask_continues_the_prompt() {
    let mut sys = system();
    assert_eq!(lines(&mut sys, "ask"), vec!["ask: butuh prompt (mis. 'ask kernel')"]);
    let out = lines(&mut sys, "ask kernel rust");
    assert_eq!(out.len(), 2);
    assert_eq!(out[0], "[nalar/LLM lokal - buitenzorg/nalar-bigram]");
    assert!(out[1].starts_with("kernel rust "));
    assert_eq!(out[1].chars().count(), "kernel rust ".len() + 48);
}

#[test]
fn terminal_runs_lines_and_keeps_a_tail() {
    let mut sys = system();
    let id = wm::create_window(&mut sys.wm, "Terminal", 10, 10, 300, 200, &[]);
    let mut t: Terminal = terminal::attach(id, 3);
    assert_eq!(t.scrollback, vec!["Buitenzorg Terminal \u{2014} ketik 'help'"]);
    for c in "pwdx\u{8}\n".chars() {
        terminal::feed_char(&mut t, &mut sys, c);
    }
    assert_eq!(t.scrollback, vec!["Buitenzorg Terminal \u{2014} ketik 'help'", "buitenzorg:/disk$ pwd", "/disk"]);
    assert_eq!(t.input, "");
    assert_eq!(terminal::visible_lines(&t, &sys), vec!["buitenzorg:/disk$ pwd", "/disk", "buitenzorg:/disk$ "]);
    let (eff, _) = terminal::feed_char(&mut t, &mut sys, '\r');
    assert_eq!(eff, Effect::Nothing);
    for c in "clear\n".chars() {
        terminal::feed_char(&mut t, &mut sys, c);
    }
    assert!(t.scrollback.is_empty());
    assert!(terminal::is_active(&Some(t)));
    assert!(!terminal::is_active(&None));
}

#[test]
fn scrollback_keeps_the_last_two_hundred_lines() {
    let mut sb: Vec<String> = (0..250).map(|i| i.to_string()).collect();
    terminal::trim(&mut sb);
    assert_eq!(sb.len(), 200);
    assert_eq!(sb[0], "50");
    assert_eq!(sb[199], "249");
}

#[test]
fn editing_ignores_controls_and_erases() {
    let mut s = String::from("ab");
    terminal::edit(&mut s, '\u{7f}');
    terminal::edit(&mut s, '\u{1b}');
    terminal::edit(&mut s, '\u{e9}');
    assert_eq!(s, "a\u{e9}");
    let mut e = String::new();
    terminal::edit(&mut e, '\u{8}');
    assert_eq!(e, "");
}
