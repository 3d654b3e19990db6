use buitenzorg::driver::BlockDevice;
use buitenzorg::fat::{format_fat12, FatVolume};
use buitenzorg::ramdisk;
use buitenzorg::script::{self, Expr, Flow, Interp, Lang, Stmt, Value};
use buitenzorg::vfs::{self, Vfs};

#[test]
fn fat_write_is_read_back() {
    let mut d = ramdisk::new("t", 128);
    format_fat12(&mut d).unwrap();
    let v = FatVolume::mount(&mut d).unwrap();
    let data: Vec<u8> = (0..1500u32).map(|i| (i % 251) as u8).collect();
    v.write_file(&mut d, "DAHAN.TXT", &data).unwrap();
    assert_eq!(v.read_file(&mut d, "dahan.txt").unwrap(), data);
    assert_eq!(v.read_file(&mut d, "NOPE.TXT"), Err("file not found in root directory"));
    assert_eq!(v.read_file(&mut d, "no.dots.here"), Err("not a valid 8.3 name"));
}

#[test]
fn fat_set_updates_both_fat_copies() {
    let mut d = ramdisk::new("t", 128);
    format_fat12(&mut d).unwrap();
    let v = FatVolume::mount(&mut d).unwrap();
    assert_eq!(v.fat_size, 12);
    v.write_file(&mut d, "A.TXT", b"hello").unwrap();
    let mut fat1 = [0u8; 512];
    let mut fat2 = [0u8; 512];
    d.read_sector(v.fat_start, &mut fat1).unwrap();
    d.read_sector(v.fat_start + v.fat_size, &mut fat2).unwrap();
    assert_eq!(fat1, fat2);
    assert_ne!(fat1[3], 0);
    // The root directory, right after both FATs, holds only the new entry.
    let mut root = [0u8; 512];
    d.read_sector(v.root_dir_start, &mut root).unwrap();
    assert_eq!(&root[0..11], b"A       TXT");
    assert_eq!(root[32], 0);
}

#[test]
fn format_refuses_small_disks() {
    let mut d = ramdisk::new("t", 32);
    assert_eq!(format_fat12(&mut d), Err("ramdisk size unsuitable for FAT12"));
    let mut s = [1u8; 512];
    d.read_sector(0, &mut s).unwrap();
    assert!(s.iter().all(|&b| b == 0));
}

#[test]
fn vfs_write_then_read() {
    let mut d = ramdisk::new("d", 2880);
    format_fat12(&mut d).unwrap();
    let mut v: Vfs<ramdisk::RamDisk> = Vfs::new();
    vfs::mount(&mut v, "disk", d, false).unwrap();
    vfs::write(&mut v, "/disk/NOTE.TXT", b"daun").unwrap();
    assert_eq!(vfs::read(&mut v, "/disk/NOTE.TXT").unwrap(), b"daun".to_vec());
    assert_eq!(vfs::read(&mut v, "disk/NOTE.TXT"), Err("path must be absolute"));
    assert_eq!(vfs::read(&mut v, "/disk"), Err("path names a directory, not a file"));
    assert_eq!(vfs::read(&mut v, "/nope/NOTE.TXT"), Err("no such mount"));
}

#[test]
fn demo_programs_print_their_lines() {
    for (lang, p) in [(Lang::Js, "js"), (Lang::Ts, "ts"), (Lang::Python, "py")] {
        let o = script::run(lang, script::demo_source(lang));
        assert_eq!(o.error, None);
        assert_eq!(o.lines, vec![format!("{}: fib(10) = 55", p), format!("{}: sum fib(0..9) = 88", p)]);
    }
}

#[test]
fn c_style_for_with_else_if() {
    let src = "let s = 0; for (let i = 1; i <= 4; i = i + 1) { if (i % 2 == 0) { s = s + i; } else if (i == 3) { s = s + 100; } } print(s);";
    let o = script::run(Lang::Js, src);
    assert_eq!(o.error, None);
    assert_eq!(o.lines, vec!["106".to_string()]);
}

#[test]
fn python_range_counts_from_zero() {
    let o = script::run(Lang::Python, "for i in range(3):\n    print(i)\n");
    assert_eq!(o.error, None);
    assert_eq!(o.lines, vec!["0".to_string(), "1".to_string(), "2".to_string()]);
}

#[test]
fn wrong_argument_count_is_an_error() {
    let o = script::run(Lang::Js, "function f(a) { return a; } print(f(7)); f(1, 2); print(9);");
    assert_eq!(o.lines, vec!["7".to_string()]);
    assert_eq!(o.error, Some("'f' butuh 1 argumen, diberi 2".to_string()));
}

#[test]
fn arithmetic_edge_cases() {
    let o = script::run(Lang::Js, "print(7 / 0, 7 % 0, -7 / 2, -7 % 2, 'n' + 1, 1 < 2 && 0);");
    assert_eq!(o.error, None);
    assert_eq!(o.lines, vec!["0 0 -3 -1 n1 false".to_string()]);
    let o = script::run(Lang::Js, "let m = -9223372036854775807 - 1; print(m / -1);");
    assert_eq!(o.error, None);
    assert_eq!(o.lines, vec!["-9223372036854775808".to_string()]);
}

#[test]
fn output_before_an_error_is_kept() {
    let o = script::run(Lang::Js, "print(1); foo(); print(2);");
    assert_eq!(o.lines, vec!["1".to_string()]);
    assert_eq!(o.error, Some("fungsi 'foo' tak dikenal".to_string()));
}

#[test]
fn oversized_literal_is_a_parse_error() {
    let o = script::run(Lang::Js, "print(99999999999999999999);");
    assert_eq!(o.lines.len(), 0);
    assert_eq!(o.error, Some("parse: angka terlalu besar".to_string()));
    let o = script::run(Lang::Python, "x = 99999999999999999999\n");
    assert_eq!(o.error, Some("parse: angka terlalu besar".to_string()));
}

#[test]
fn deep_recursion_is_an_error_not_a_crash() {
    let o = script::run(Lang::Js, "function down(n) { return down(n + 1); } print(down(0));");
    assert_eq!(o.lines.len(), 0);
    assert_eq!(o.error, Some("panggilan terlalu dalam".to_string()));
}

#[test]
fn range_loop_binds_each_value() {
    let mut it = Interp::new();
    let s = Stmt::ForRange(
        "i".to_string(),
        Expr::Int(0),
        Expr::Int(3),
        vec![Stmt::ExprStmt(Expr::Call("print".to_string(), vec![Expr::Var("i".to_string())]))],
    );
    assert!(matches!(it.exec(&s), Ok(Flow::Normal)));
    assert_eq!(it.out, "0\n1\n2\n");
    assert!(matches!(it.get("i"), Some(Value::Int(2))));
}

#[test]
fn python_for_parses_to_a_range_loop() {
    let toks = script::lex_py("for i in range(3):\n    print(i)\n").unwrap();
    let prog = script::parse_py(toks).unwrap();
    assert_eq!(prog.len(), 1);
    match &prog[0] {
        Stmt::ForRange(v, Expr::Int(0), Expr::Int(3), body) => {
            assert_eq!(v, "i");
            assert_eq!(body.len(), 1);
            match &body[0] {
                Stmt::ExprStmt(Expr::Call(n, args)) => {
                    assert_eq!(n, "print");
                    assert!(matches!(&args[..], [Expr::Var(x)] if x == "i"));
                },
                _ => panic!("loop body is not a print call"),
            }
        },
        _ => panic!("not a range loop"),
    }
}

#[test]
fn js_for_keeps_init_and_increment_apart() {
    let toks = script::lex_js("for (let i = 0; i < 2; i = i + 1) { }").unwrap();
    let prog = script::parse_js(toks).unwrap();
    match &prog[0] {
        Stmt::ForC(init, _, incr, body) => {
            assert!(matches!(&**init, Stmt::Assign(n, Expr::Int(0)) if n == "i"));
            assert!(matches!(&**incr, Stmt::Assign(n, Expr::Bin(..)) if n == "i"));
            assert!(body.is_empty());
        },
        _ => panic!("not a C-style for"),
    }
}

#[test]
fn endless_loop_hits_the_step_limit() {
    let o = script::run(Lang::Js, "while (true) { }");
    assert!(o.lines.is_empty());
    assert_eq!(o.error, Some("batas langkah tercapai (kemungkinan loop tak berujung)".to_string()));
    assert_eq!(o.steps, 5_000_001);
}

#[test]
fn a_parsed_program_runs_with_hoisted_functions() {
    let prog = vec![
        Stmt::ExprStmt(Expr::Call("print".to_string(), vec![Expr::Call("f".to_string(), vec![Expr::Int(5)])])),
        Stmt::Func("f".to_string(), vec!["a".to_string()], std::rc::Rc::new(vec![Stmt::Return(Some(Expr::Var("a".to_string())))])),
    ];
    let o = script::run_program(&prog);
    assert_eq!(o.error, None);
    assert_eq!(o.lines, vec!["5".to_string()]);
}

#[test]
fn write_without_free_clusters_leaves_the_disk() {
    let mut d = ramdisk::new("t", 64);
    format_fat12(&mut d).unwrap();
    let v = FatVolume::mount(&mut d).unwrap();
    let mut before = Vec::new();
    for lba in 0..64u64 {
        let mut s = [0u8; 512];
        d.read_sector(lba, &mut s).unwrap();
        before.push(s.to_vec());
    }
    let data = vec![7u8; 64 * 512];
    assert_eq!(v.write_file(&mut d, "BIG.BIN", &data), Err("not enough free clusters"));
    for lba in 0..64u64 {
        let mut s = [0u8; 512];
        d.read_sector(lba, &mut s).unwrap();
        assert_eq!(s.to_vec(), before[lba as usize]);
    }
}
