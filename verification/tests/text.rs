use libconfig::config::{Config, Errors, Float, Format, OptionType, OptionWriter, SettingKind};

fn near(x: f64, y: f64, d: f64) -> bool {
    (x - y).abs() < d
}

fn loaded(text: &str) -> Config {
    let mut cfg = Config::new();
    assert_eq!(cfg.load_from_string(text), Ok(()));
    cfg
}

fn line_of_error(text: &str) -> usize {
    let mut cfg = Config::new();
    match cfg.load_from_string(text) {
        Err(Errors::ParseError { line }) => {
            assert_eq!(cfg.root().check(&cfg), Err(Errors::ElementNotExists));
            assert!(cfg.value("").is_none());
            assert_eq!(cfg.serialize(), "");
            line
        }
        other => panic!("a parse error was expected, not {:?}", other),
    }
}

#[test]
fn parse_then_read() {
    let cfg = loaded("section1: { a = -12; b = true; c = 99991L; d = 0.99991; e = \"x\"; };");
    assert_eq!(cfg.value("section1.a").unwrap().as_int32(&cfg), Some(-12));
    assert_eq!(cfg.value("section1.b").unwrap().as_bool(&cfg), Some(true));
    assert_eq!(cfg.value("section1.c").unwrap().as_int64(&cfg), Some(99991));
    let d = cfg.value("section1.d").unwrap().as_float64(&cfg).unwrap();
    assert!(near(d.text().parse::<f64>().unwrap(), 0.99991, 1e-9));
    assert_eq!(cfg.value("section1.e").unwrap().as_string(&cfg), Some("x".to_string()));
}

#[test]
fn build_save_reload() {
    let mut cfg = Config::new();
    let root = cfg.create_section("root").unwrap();
    let grp = root.create_section(&mut cfg, "grp").unwrap();
    grp.write_int32(&mut cfg, "i", 123).unwrap();
    grp.write_int64(&mut cfg, "l", 100000002).unwrap();
    grp.write_float64(&mut cfg, "f", &Float::parse("1.00023").unwrap()).unwrap();
    grp.write_bool(&mut cfg, "b", true).unwrap();
    grp.write_string(&mut cfg, "s", "hi").unwrap();
    let text = cfg.serialize();
    let mut again = Config::new();
    assert_eq!(again.load_from_string(&text), Ok(()));
    assert_eq!(again.value("root.grp.i").unwrap().as_int32(&again), Some(123));
    assert_eq!(again.value("root.grp.l").unwrap().as_int64(&again), Some(100000002));
    let f = again.value("root.grp.f").unwrap().as_float64(&again).unwrap();
    assert!(near(f.text().parse::<f64>().unwrap(), 1.00023, 1e-5));
    assert_eq!(again.value("root.grp.b").unwrap().as_bool(&again), Some(true));
    assert_eq!(again.value("root.grp.s").unwrap().as_string(&again), Some("hi".to_string()));
    assert_eq!(again.serialize(), text);
}

#[test]
fn written_text_is_exact() {
    let mut cfg = Config::new();
    let g = cfg.create_section("g").unwrap();
    g.write_int32(&mut cfg, "zero", 0).unwrap();
    g.write_int32(&mut cfg, "min", i32::MIN).unwrap();
    g.write_int32(&mut cfg, "max", i32::MAX).unwrap();
    g.write_int64(&mut cfg, "lmin", i64::MIN).unwrap();
    g.write_int64(&mut cfg, "lmax", i64::MAX).unwrap();
    g.write_bool(&mut cfg, "no", false).unwrap();
    g.write_string(&mut cfg, "s", "a\"b\\c\nd\te\rf\x0cg\x01h\u{e9}").unwrap();
    let arr = g.create_array(&mut cfg, "arr").unwrap();
    arr.write_string(&mut cfg, "x").unwrap();
    arr.write_string(&mut cfg, "y").unwrap();
    g.create_array(&mut cfg, "none").unwrap();
    g.create_list(&mut cfg, "l").unwrap();
    g.create_section(&mut cfg, "empty").unwrap();
    let expected = "g : {\n  zero = 0;\n  min = -2147483648;\n  max = 2147483647;\n  lmin = -9223372036854775808L;\n  lmax = 9223372036854775807L;\n  no = false;\n  s = \"a\\\"b\\\\c\\nd\\te\\rf\\fg\\x01h\u{e9}\";\n  arr = [ \"x\", \"y\" ];\n  none = [ ];\n  l = ( );\n  empty : {\n  };\n};\n";
    assert_eq!(cfg.serialize(), expected);
    let again = loaded(expected);
    assert_eq!(again.serialize(), expected);
    assert_eq!(
        again.value("g.s").unwrap().as_string(&again),
        Some("a\"b\\c\nd\te\rf\x0cg\x01h\u{e9}".to_string())
    );
    assert_eq!(again.value("g.min").unwrap().as_int32(&again), Some(i32::MIN));
    assert_eq!(again.value("g.lmin").unwrap().as_int64(&again), Some(i64::MIN));
    assert_eq!(again.value("g.lmax").unwrap().as_int64(&again), Some(i64::MAX));
}

#[test]
fn tab_width_sets_the_indentation() {
    let mut cfg = Config::new();
    let a = cfg.create_section("a").unwrap();
    let b = a.create_section(&mut cfg, "b").unwrap();
    b.write_int32(&mut cfg, "c", 1).unwrap();
    cfg.set_tab_width(4);
    assert_eq!(cfg.serialize(), "a : {\n    b : {\n        c = 1;\n    };\n};\n");
    cfg.set_tab_width(0);
    assert_eq!(cfg.serialize(), "a : {\n\tb : {\n\t\tc = 1;\n\t};\n};\n");
    let again = loaded(&cfg.serialize());
    assert_eq!(again.value("a.b.c").unwrap().as_int32(&again), Some(1));
}

#[test]
fn lists_nest() {
    let text = "l = ( 1, \"two\", ( 3L, [ 4, 5 ] ), { x = 6; y = ( ); } );";
    let cfg = loaded(text);
    assert_eq!(cfg.value("l.0").unwrap().as_int32(&cfg), Some(1));
    assert_eq!(cfg.value("l.1").unwrap().as_string(&cfg), Some("two".to_string()));
    assert_eq!(cfg.value("l.2.0").unwrap().as_int64(&cfg), Some(3));
    assert_eq!(cfg.value("l.2.1.1").unwrap().as_int32(&cfg), Some(5));
    assert_eq!(cfg.value("l.3.x").unwrap().as_int32(&cfg), Some(6));
    assert_eq!(cfg.value("l.3").unwrap().kind(&cfg), Some(SettingKind::Group));
    assert_eq!(cfg.value("l.3.y").unwrap().is_list(&cfg), Some(true));
    assert_eq!(cfg.value("l.3").unwrap().name(&cfg), None);
    let written = "l = ( 1, \"two\", ( 3L, [ 4, 5 ] ), {\n  x = 6;\n  y = ( );\n} );\n";
    assert_eq!(cfg.serialize(), written);
    assert_eq!(loaded(written).serialize(), written);
}

#[test]
fn blank_space_and_comments_part_tokens() {
    let text = "# a comment\n// another\n/* a third,\n over two lines */ a/**/=/* in between */1 // the end\n\tb\r\n:\x0b{\x0c}\n c = [ 1 , 2 ,\n 3 ] d = ( ) , e = true";
    let cfg = loaded(text);
    assert_eq!(cfg.value("a").unwrap().as_int32(&cfg), Some(1));
    assert_eq!(cfg.value("b").unwrap().is_section(&cfg), Some(true));
    assert_eq!(cfg.value("c.2").unwrap().as_int32(&cfg), Some(3));
    assert_eq!(cfg.value("d").unwrap().is_list(&cfg), Some(true));
    assert_eq!(cfg.value("e").unwrap().as_bool(&cfg), Some(true));
    assert_eq!(cfg.serialize(), "a = 1;\nb : {\n};\nc = [ 1, 2, 3 ];\nd = ( );\ne = true;\n");
    assert_eq!(loaded("").serialize(), "");
    assert_eq!(loaded("  /* only a comment").serialize(), "");
    assert_eq!(loaded("x = 1; /*/ y = 2;").serialize(), "x = 1;\n");
}

#[test]
fn numbers_are_read_by_their_form() {
    let cfg = loaded(
        "a = 0x1F; b = 0XffL; c = 0xFFFFFFFF; d = 0x100000000; e = 2147483648; f = -2147483649; \
         g = +7; h = 007; i = 1.; j = .5; k = 1e3; l = -0; m = 5L; n = 0xFFFFFFFFFFFFFFFF; o = TRUE; p = fAlSe;",
    );
    let int32 = |p: &str| cfg.value(p).unwrap().as_int32(&cfg);
    let int64 = |p: &str| cfg.value(p).unwrap().as_int64(&cfg);
    let kind = |p: &str| cfg.value(p).unwrap().value_type(&cfg);
    assert_eq!(int32("a"), Some(31));
    assert_eq!(cfg.value("a").unwrap().format(&cfg), Some(Format::Hex));
    assert_eq!(int64("b"), Some(255));
    assert_eq!(int32("c"), Some(-1));
    assert_eq!(int64("d"), Some(0x1_0000_0000));
    assert_eq!(int64("e"), Some(2147483648));
    assert_eq!(int64("f"), Some(-2147483649));
    assert_eq!(int32("g"), Some(7));
    assert_eq!(int32("h"), Some(7));
    assert_eq!(kind("i"), Some(OptionType::FloatType));
    assert_eq!(kind("j"), Some(OptionType::FloatType));
    assert_eq!(kind("k"), Some(OptionType::FloatType));
    assert_eq!(cfg.value("k").unwrap().as_float64(&cfg).unwrap().text(), "1e3");
    assert_eq!(int32("l"), Some(0));
    assert_eq!(int64("m"), Some(5));
    assert_eq!(int64("n"), Some(-1));
    assert_eq!(cfg.value("o").unwrap().as_bool(&cfg), Some(true));
    assert_eq!(cfg.value("p").unwrap().as_bool(&cfg), Some(false));
    assert_eq!(
        cfg.serialize(),
        "a = 0x1F;\nb = 0xFFL;\nc = 0xFFFFFFFF;\nd = 0x100000000L;\ne = 2147483648L;\nf = -2147483649L;\n\
         g = 7;\nh = 7;\ni = 1.;\nj = .5;\nk = 1e3;\nl = 0;\nm = 5L;\nn = 0xFFFFFFFFFFFFFFFFL;\no = true;\np = false;\n"
    );
}

#[test]
fn string_escapes_are_read() {
    let cfg = loaded("s = \"a\\tb\\x41\\x0a\\\\\\\"\\f\\r\\n\"; t = \"\"; u = \"two\nlines # no comment\";");
    assert_eq!(
        cfg.value("s").unwrap().as_string(&cfg),
        Some("a\tbA\n\\\"\x0c\r\n".to_string())
    );
    assert_eq!(cfg.value("t").unwrap().as_string(&cfg), Some(String::new()));
    assert_eq!(
        cfg.value("u").unwrap().as_string(&cfg),
        Some("two\nlines # no comment".to_string())
    );
}

#[test]
fn errors_tell_the_line() {
    assert_eq!(line_of_error("a = ;"), 1);
    assert_eq!(line_of_error("a = 1;\nb = 2;\nc = ;\n"), 3);
    assert_eq!(line_of_error("a = 1;\n\n\n  b"), 4);
    assert_eq!(line_of_error("a : {\n b = 1;\n"), 3);
    assert_eq!(line_of_error("}"), 1);
    assert_eq!(line_of_error("a = 1;\na = 2;"), 2);
    assert_eq!(line_of_error("g : { x = 1; x = 2; };"), 1);
    assert_eq!(line_of_error("a = [ 1, \"x\" ];"), 1);
    assert_eq!(line_of_error("a = [ 1, 2L ];"), 1);
    assert_eq!(line_of_error("a = [ 1,\n ( ) ];"), 2);
    assert_eq!(line_of_error("a = [ 1 2 ];"), 1);
    assert_eq!(line_of_error("a = ( 1;\n"), 1);
    assert_eq!(line_of_error("a = \"open"), 1);
    assert_eq!(line_of_error("a = \"bad \\q\";"), 1);
    assert_eq!(line_of_error("a = \"bad \\x4\";"), 1);
    assert_eq!(line_of_error("a = 99999999999999999999;"), 1);
    assert_eq!(line_of_error("a = 0x1FFFFFFFFFFFFFFFF;"), 1);
    assert_eq!(line_of_error("a = -9223372036854775809L;"), 1);
    assert_eq!(line_of_error("\n\na = truth;"), 3);
    assert_eq!(line_of_error("1a = 1;"), 1);
    assert_eq!(line_of_error("a 1;"), 1);
    assert_eq!(line_of_error("a = 1; b"), 1);
}

#[test]
fn loading_replaces_the_document() {
    let mut cfg = Config::new();
    let g = cfg.create_section("g").unwrap();
    g.write_int32(&mut cfg, "n", 1).unwrap();
    let old_root = cfg.root();
    let old_n = cfg.value("g.n").unwrap();
    cfg.set_tab_width(3);
    assert_eq!(cfg.load_from_string("h = 2;"), Ok(()));
    assert!(cfg.value("g").is_none());
    assert_eq!(cfg.value("h").unwrap().as_int32(&cfg), Some(2));
    assert_eq!(old_root.check(&cfg), Err(Errors::StaleReference));
    assert_eq!(old_n.as_int32(&cfg), None);
    assert_eq!(OptionWriter::new(g.element).write_int32(&mut cfg, "k", 1).err(), Some(Errors::StaleReference));
    assert_eq!(cfg.tab_width(), 3);
    // A text that is no document leaves nothing behind.
    assert_eq!(cfg.load_from_string("h = 2; k = "), Err(Errors::ParseError { line: 1 }));
    assert!(cfg.value("h").is_none());
    assert_eq!(cfg.create_section("x").err(), Some(Errors::ElementNotExists));
    // And the next good one is read as ever.
    assert_eq!(cfg.load_from_string("h = 3;"), Ok(()));
    assert_eq!(cfg.value("h").unwrap().as_int32(&cfg), Some(3));
    assert_eq!(cfg.create_section("x").map(|_| ()), Ok(()));
}

#[test]
fn names_may_look_like_words() {
    let mut cfg = Config::new();
    cfg.create_path("true.false", libconfig::config::Payload::Array).unwrap();
    let g = cfg.create_section("*a-b_c9").unwrap();
    g.write_bool(&mut cfg, "L", true).unwrap();
    let text = cfg.serialize();
    assert_eq!(text, "true : {\n  false = [ ];\n};\n*a-b_c9 : {\n  L = true;\n};\n");
    assert_eq!(loaded(&text).serialize(), text);
}

#[test]
fn settings_remember_their_lines() {
    let cfg = loaded("a = 1;\n\n# a comment\nb :\n{\n  c = [ 1,\n    2 ];\n  d = ( {\n    e = 1; },\n\n  ( ) );\n};\nf = \"two\nlines\"; g = 2;");
    let line = |p: &str| cfg.value(p).unwrap().source_line(&cfg);
    assert_eq!(cfg.root().source_line(&cfg), Some(0));
    assert_eq!(line("a"), Some(1));
    assert_eq!(line("b"), Some(4));
    assert_eq!(line("b.c"), Some(6));
    assert_eq!(line("b.c.0"), Some(6));
    assert_eq!(line("b.c.1"), Some(7));
    assert_eq!(line("b.d"), Some(8));
    assert_eq!(line("b.d.0"), Some(8));
    assert_eq!(line("b.d.0.e"), Some(9));
    assert_eq!(line("b.d.1"), Some(11));
    assert_eq!(line("f"), Some(13));
    assert_eq!(line("g"), Some(14));
    // What was not read from a text has no line, and a text that is
    // written out and read again has lines of its own.
    let mut made = Config::new();
    let s = made.create_section("s").unwrap();
    s.write_int32(&mut made, "n", 1).unwrap();
    assert_eq!(made.value("s.n").unwrap().source_line(&made), Some(0));
    let again = loaded(&made.serialize());
    assert_eq!(again.value("s").unwrap().source_line(&again), Some(1));
    assert_eq!(again.value("s.n").unwrap().source_line(&again), Some(2));
    assert_eq!(libconfig::config::OptionReader::new(None).source_line(&again), None);
}

#[test]
fn settings_remember_their_file() {
    let mut cfg = Config::new();
    assert_eq!(cfg.source_file(), None);
    assert_eq!(cfg.load_from_named_string("a = 1;\nb : { c = 2; };", "main.cfg"), Ok(()));
    assert_eq!(cfg.source_file(), Some("main.cfg".to_string()));
    assert_eq!(cfg.value("b.c").unwrap().source_file(&cfg), Some("main.cfg".to_string()));
    assert_eq!(cfg.value("b.c").unwrap().source_line(&cfg), Some(2));
    assert_eq!(cfg.root().source_file(&cfg), None);
    let made = cfg.create_section("made").unwrap();
    assert_eq!(made.reader().source_file(&cfg), None);
    assert_eq!(cfg.load_from_string("a = 1;"), Ok(()));
    assert_eq!(cfg.value("a").unwrap().source_file(&cfg), None);
    assert_eq!(
        cfg.load_from_named_string("a = ", "bad.cfg"),
        Err(Errors::ParseError { line: 1 })
    );
    assert_eq!(cfg.source_file(), Some("bad.cfg".to_string()));
}
