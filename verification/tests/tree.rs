use libconfig::config::{
    CollectionReaderIterator, Config, Errors, Float, Format, OptionReader, OptionType,
    OptionWriter, SettingKind, Value,
};
use libconfig::config::Payload;

#[test]
fn duplicate_section_is_refused() {
    let mut cfg = Config::new();
    assert!(cfg.create_section("x").is_ok());
    assert_eq!(cfg.create_section("x").err(), Some(Errors::DuplicateName));
}

#[test]
fn nested_value_is_found_by_path() {
    let mut cfg = Config::new();
    let a = cfg.create_section("a").unwrap();
    a.write_int32(&mut cfg, "b", 5).unwrap();
    let found = cfg.value("a.b").unwrap();
    assert_eq!(found.as_int32(&cfg), Some(5));
    assert!(cfg.value("a.missing").is_none());
}

#[test]
fn absent_reader_gives_the_default() {
    let mut cfg = Config::new();
    let a = cfg.create_section("a").unwrap();
    a.write_int32(&mut cfg, "b", 5).unwrap();
    let absent = OptionReader::new(None);
    assert_eq!(absent.as_int32_default(&cfg, 7), 7);
    assert_eq!(absent.as_int64_default(&cfg, -9), -9);
    assert_eq!(absent.as_bool_default(&cfg, true), true);
    assert_eq!(absent.as_string_default(&cfg, "dflt"), "dflt");
    let f = absent.as_float64_default(&cfg, Float::parse("2.5").unwrap());
    assert_eq!(f.text(), "2.5");
    let there = cfg.value("a.b").unwrap();
    assert_eq!(there.as_int32_default(&cfg, 7), 5);
    // A value of another kind is not converted: the default comes back.
    assert_eq!(there.as_int64_default(&cfg, 7), 7);
}

#[test]
fn reading_as_another_kind_gives_nothing() {
    let mut cfg = Config::new();
    let g = cfg.create_section("g").unwrap();
    g.write_int32(&mut cfg, "n", 42).unwrap();
    let n = cfg.value("g.n").unwrap();
    assert_eq!(n.as_string(&cfg), None);
    assert_eq!(n.as_int64(&cfg), None);
    assert_eq!(n.as_bool(&cfg), None);
    assert!(n.as_float64(&cfg).is_none());
    assert_eq!(n.expect(&cfg, OptionType::StringType).err(), Some(Errors::TypeMismatch));
    match n.expect(&cfg, OptionType::IntegerType) {
        Ok(Value::Int32(v)) => assert_eq!(v, 42),
        _ => panic!("an integer was expected"),
    }
}

#[test]
fn deleted_setting_is_gone() {
    let mut cfg = Config::new();
    let g = cfg.create_section("g").unwrap();
    let h = g.create_section(&mut cfg, "h").unwrap();
    h.write_int32(&mut cfg, "n", 1).unwrap();
    g.write_int32(&mut cfg, "m", 2).unwrap();
    let n = cfg.value("g.h.n").unwrap();
    let held = h.reader();
    assert_eq!(held.check(&cfg), Ok(()));
    assert_eq!(h.delete(&mut cfg), Ok(()));
    assert!(cfg.value("g.h").is_none());
    assert!(cfg.value("g.h.n").is_none());
    assert_eq!(held.check(&cfg), Err(Errors::StaleReference));
    assert_eq!(n.check(&cfg), Err(Errors::StaleReference));
    assert_eq!(n.as_int32(&cfg), None);
    assert_eq!(held.is_section(&cfg), None);
    assert_eq!(h.delete(&mut cfg), Err(Errors::StaleReference));
    assert_eq!(h.write_int32(&mut cfg, "k", 1).err(), Some(Errors::StaleReference));
    // The sibling is untouched.
    assert_eq!(cfg.value("g.m").unwrap().as_int32(&cfg), Some(2));
    // The name is free again, and the new setting is another one.
    let again = g.create_section(&mut cfg, "h").unwrap();
    assert!(again.element != h.element);
    assert_eq!(held.check(&cfg), Err(Errors::StaleReference));
}

#[test]
fn root_cannot_be_deleted() {
    let mut cfg = Config::new();
    assert_eq!(cfg.root().delete(&mut cfg), Err(Errors::ElementNotExists));
    assert_eq!(OptionWriter::new(None).delete(&mut cfg), Err(Errors::ElementNotExists));
    assert_eq!(OptionReader::new(Some(99)).delete(&mut cfg), Err(Errors::StaleReference));
    assert_eq!(cfg.root().is_root(&cfg), Some(true));
}

#[test]
fn writer_errors() {
    let mut cfg = Config::new();
    let g = cfg.create_section("g").unwrap();
    assert_eq!(g.create_section(&mut cfg, "no good").err(), Some(Errors::InvalidName));
    assert_eq!(g.create_section(&mut cfg, "").err(), Some(Errors::InvalidName));
    assert_eq!(g.create_array(&mut cfg, "1a").err(), Some(Errors::InvalidName));
    g.write_int32(&mut cfg, "n", 1).unwrap();
    assert_eq!(g.write_int32(&mut cfg, "n", 2).err(), Some(Errors::DuplicateName));
    assert_eq!(g.write_string(&mut cfg, "n", "x").err(), Some(Errors::DuplicateName));
    assert_eq!(cfg.value("g.n").unwrap().as_int32(&cfg), Some(1));
    let n = OptionWriter::new(cfg.value("g.n").unwrap().element);
    assert_eq!(n.create_section(&mut cfg, "x").err(), Some(Errors::NotAGroup));
    assert_eq!(n.create_list(&mut cfg, "x").err(), Some(Errors::NotAGroup));
    assert_eq!(n.write_bool(&mut cfg, "x", true).err(), Some(Errors::NotAnAggregate));
    assert_eq!(
        OptionWriter::new(None).create_section(&mut cfg, "x").err(),
        Some(Errors::ElementNotExists)
    );
    let arr = g.create_array(&mut cfg, "arr").unwrap();
    assert_eq!(
        OptionWriter::new(arr.element).create_section(&mut cfg, "x").err(),
        Some(Errors::NotAGroup)
    );
}

#[test]
fn arrays_hold_one_kind() {
    let mut cfg = Config::new();
    let g = cfg.create_section("g").unwrap();
    let arr = g.create_array(&mut cfg, "arr").unwrap();
    assert_eq!(arr.write_int32(&mut cfg, 1), Ok(arr));
    assert_eq!(arr.write_int32(&mut cfg, 2), Ok(arr));
    assert_eq!(arr.write_string(&mut cfg, "x").err(), Some(Errors::TypeMismatch));
    assert_eq!(arr.write_int64(&mut cfg, 3).err(), Some(Errors::TypeMismatch));
    assert_eq!(arr.write_bool(&mut cfg, true).err(), Some(Errors::TypeMismatch));
    assert_eq!(
        arr.write_float64(&mut cfg, &Float::parse("1.5").unwrap()).err(),
        Some(Errors::TypeMismatch)
    );
    assert_eq!(cfg.value("g.arr.0").unwrap().as_int32(&cfg), Some(1));
    assert_eq!(cfg.value("g.arr.1").unwrap().as_int32(&cfg), Some(2));
    assert!(cfg.value("g.arr.2").is_none());
    assert!(cfg.value("g.arr.x").is_none());
    assert!(cfg.value("g.arr.-1").is_none());
    assert!(cfg.value("g.arr.99999999999999999999999999").is_none());
    assert_eq!(cfg.value("g.arr.01").unwrap().as_int32(&cfg), Some(2));
    assert_eq!(cfg.value("g.arr.0").unwrap().name(&cfg), None);
    assert_eq!(cfg.value("g.arr.1").unwrap().index(&cfg), Some(1));
    assert_eq!(cfg.value("g.arr").unwrap().is_array(&cfg), Some(true));
    assert_eq!(cfg.value("g.arr").unwrap().kind(&cfg), Some(SettingKind::Array));
}

#[test]
fn lists_hold_anything() {
    let mut cfg = Config::new();
    let g = cfg.create_section("g").unwrap();
    let l = g.create_list(&mut cfg, "l").unwrap();
    l.write_int32(&mut cfg, 1).unwrap();
    l.write_string(&mut cfg, "two").unwrap();
    l.write_bool(&mut cfg, false).unwrap();
    l.write_int64(&mut cfg, 4).unwrap();
    l.write_float64(&mut cfg, &Float::parse("5e0").unwrap()).unwrap();
    let list = cfg.value("g.l").unwrap();
    assert_eq!(list.is_list(&cfg), Some(true));
    assert_eq!(list.is_aggregate(&cfg), Some(true));
    assert_eq!(list.is_scalar(&cfg), Some(false));
    let kids = list.children(&cfg);
    assert_eq!(kids.len(), 5);
    assert_eq!(kids[0].as_int32(&cfg), Some(1));
    assert_eq!(kids[1].as_string(&cfg), Some("two".to_string()));
    assert_eq!(kids[2].as_bool(&cfg), Some(false));
    assert_eq!(kids[3].as_int64(&cfg), Some(4));
    assert_eq!(kids[4].as_float64(&cfg).unwrap().text(), "5e0");
    assert_eq!(kids[0].is_number(&cfg), Some(true));
    assert_eq!(kids[1].is_number(&cfg), Some(false));
    assert_eq!(kids[4].is_number(&cfg), Some(true));
    assert_eq!(kids[3].parent(&cfg), Some(list));
    assert_eq!(kids[3].kind(&cfg), Some(SettingKind::Scalar(OptionType::Int64Type)));
}

#[test]
fn iterator_walks_the_children_in_order() {
    let mut cfg = Config::new();
    let g = cfg.create_section("g").unwrap();
    let arr = g.create_array(&mut cfg, "arr").unwrap();
    arr.write_int32(&mut cfg, 10).unwrap();
    arr.write_int32(&mut cfg, 20).unwrap();
    arr.write_int32(&mut cfg, 30).unwrap();
    let reader = cfg.value("g.arr").unwrap();
    let mut it = reader.as_array(&cfg);
    let mut seen = Vec::new();
    while let Some(r) = it.next(&cfg) {
        seen.push(r.as_int32(&cfg).unwrap());
    }
    assert_eq!(seen, vec![10, 20, 30]);
    assert_eq!(it.next(&cfg), None);
    // An array is no list, and a group is neither.
    let mut none = reader.as_list(&cfg);
    assert_eq!(none.next(&cfg), None);
    let mut none = cfg.value("g").unwrap().as_array(&cfg);
    assert_eq!(none.next(&cfg), None);
    // Made anew, it starts over.
    let mut again = CollectionReaderIterator::new(&cfg, reader.element);
    assert_eq!(again.next(&cfg).unwrap().as_int32(&cfg), Some(10));
    // Deleting the array stops a walk that is under way.
    assert_eq!(reader.delete(&mut cfg), Ok(()));
    assert_eq!(again.next(&cfg), None);
}

#[test]
fn deleting_an_element_moves_the_later_ones_up() {
    let mut cfg = Config::new();
    let g = cfg.create_section("g").unwrap();
    let l = g.create_list(&mut cfg, "l").unwrap();
    l.write_int32(&mut cfg, 1).unwrap();
    l.write_int32(&mut cfg, 2).unwrap();
    l.write_int32(&mut cfg, 3).unwrap();
    let second = cfg.value("g.l.1").unwrap();
    let third = cfg.value("g.l.2").unwrap();
    assert_eq!(second.delete(&mut cfg), Ok(()));
    assert_eq!(cfg.value("g.l.1"), Some(third));
    assert_eq!(third.index(&cfg), Some(1));
    assert_eq!(third.as_int32(&cfg), Some(3));
    assert!(cfg.value("g.l.2").is_none());
    assert_eq!(cfg.serialize(), "g : {\n  l = ( 1, 3 );\n};\n");
}

#[test]
fn paths_are_exact() {
    let mut cfg = Config::new();
    let a = cfg.create_section("a").unwrap();
    let b = a.create_section(&mut cfg, "b").unwrap();
    b.write_bool(&mut cfg, "c", true).unwrap();
    assert_eq!(cfg.value(""), Some(cfg.root()));
    assert_eq!(cfg.value("a").unwrap().element, a.element);
    assert_eq!(cfg.value("a.b").unwrap().element, b.element);
    assert_eq!(cfg.value("a.b.c").unwrap().as_bool(&cfg), Some(true));
    assert!(cfg.value("A").is_none());
    assert!(cfg.value("a..b").is_none());
    assert!(cfg.value(".a").is_none());
    assert!(cfg.value("a.").is_none());
    assert!(cfg.value("a.b.c.d").is_none());
    assert!(cfg.value("b").is_none());
    // A reader looks from its own setting on.
    let from_a = a.reader();
    assert_eq!(from_a.value(&cfg, "b.c").unwrap().as_bool(&cfg), Some(true));
    assert_eq!(from_a.value(&cfg, ""), Some(from_a));
    assert!(from_a.value(&cfg, "a").is_none());
    assert_eq!(from_a.name(&cfg), Some("a".to_string()));
    assert_eq!(from_a.parent(&cfg), Some(cfg.root()));
    assert_eq!(cfg.root().parent(&cfg), None);
    assert_eq!(cfg.root().name(&cfg), None);
}

#[test]
fn create_path_makes_the_groups_on_the_way() {
    let mut cfg = Config::new();
    let leaf = cfg.create_path("a.b.c", Payload::Scalar(Value::Int32(5))).unwrap();
    assert_eq!(cfg.value("a.b.c").unwrap().element, leaf.element);
    assert_eq!(cfg.value("a.b.c").unwrap().as_int32(&cfg), Some(5));
    assert_eq!(cfg.value("a").unwrap().is_section(&cfg), Some(true));
    assert_eq!(cfg.value("a.b").unwrap().is_section(&cfg), Some(true));
    // What is there is used, what is missing is made.
    cfg.create_path("a.b.d", Payload::Scalar(Value::Bool(true))).unwrap();
    cfg.create_path("a.e", Payload::List).unwrap();
    assert_eq!(
        cfg.serialize(),
        "a : {\n  b : {\n    c = 5;\n    d = true;\n  };\n  e = ( );\n};\n"
    );
    // A setting of the same kind under that name is handed out as it is.
    let again = cfg.create_path("a.b.c", Payload::Scalar(Value::Int32(9))).unwrap();
    assert_eq!(again.element, leaf.element);
    assert_eq!(cfg.value("a.b.c").unwrap().as_int32(&cfg), Some(5));
    assert_eq!(cfg.create_path("a.b", Payload::Group).unwrap().element, cfg.value("a.b").unwrap().element);
}

#[test]
fn create_path_fails_as_a_whole() {
    let mut cfg = Config::new();
    cfg.create_path("a.b.c", Payload::Scalar(Value::Int32(5))).unwrap();
    let before = cfg.serialize();
    assert_eq!(
        cfg.create_path("a.b.c", Payload::Scalar(Value::Bool(true))).err(),
        Some(Errors::TypeMismatch)
    );
    assert_eq!(cfg.create_path("a.b.c", Payload::Group).err(), Some(Errors::TypeMismatch));
    assert_eq!(cfg.create_path("a.b.c.d", Payload::Group).err(), Some(Errors::NotAGroup));
    assert_eq!(cfg.create_path("a.x.y.not good", Payload::Group).err(), Some(Errors::InvalidName));
    assert_eq!(cfg.create_path("a.x..y", Payload::Group).err(), Some(Errors::InvalidName));
    assert_eq!(cfg.create_path("a.x.", Payload::Group).err(), Some(Errors::InvalidName));
    assert_eq!(cfg.create_path("", Payload::Group).err(), Some(Errors::InvalidName));
    assert_eq!(
        OptionWriter::new(None).create_path(&mut cfg, "a", Payload::Group).err(),
        Some(Errors::ElementNotExists)
    );
    assert_eq!(cfg.serialize(), before);
    assert!(cfg.value("a.x").is_none());
}

#[test]
fn format_is_for_integers() {
    let mut cfg = Config::new();
    let g = cfg.create_section("g").unwrap();
    g.write_int32(&mut cfg, "n", 255).unwrap();
    g.write_int32(&mut cfg, "neg", -1).unwrap();
    g.write_int64(&mut cfg, "big", -1).unwrap();
    g.write_string(&mut cfg, "s", "x").unwrap();
    let n = OptionWriter::new(cfg.value("g.n").unwrap().element);
    let neg = OptionWriter::new(cfg.value("g.neg").unwrap().element);
    let big = OptionWriter::new(cfg.value("g.big").unwrap().element);
    let s = OptionWriter::new(cfg.value("g.s").unwrap().element);
    assert_eq!(n.reader().format(&cfg), Some(Format::Decimal));
    assert_eq!(n.set_format(&mut cfg, Format::Hex), Ok(()));
    assert_eq!(neg.set_format(&mut cfg, Format::Hex), Ok(()));
    assert_eq!(big.set_format(&mut cfg, Format::Hex), Ok(()));
    assert_eq!(s.set_format(&mut cfg, Format::Hex), Err(Errors::TypeMismatch));
    assert_eq!(g.set_format(&mut cfg, Format::Hex), Err(Errors::TypeMismatch));
    assert_eq!(s.set_format(&mut cfg, Format::Decimal), Ok(()));
    assert_eq!(n.reader().format(&cfg), Some(Format::Hex));
    assert_eq!(
        cfg.serialize(),
        "g : {\n  n = 0xFF;\n  neg = 0xFFFFFFFF;\n  big = 0xFFFFFFFFFFFFFFFFL;\n  s = \"x\";\n};\n"
    );
    assert_eq!(n.set_format(&mut cfg, Format::Decimal), Ok(()));
    cfg.set_default_format(Format::Hex);
    assert_eq!(cfg.default_format(), Format::Hex);
    assert_eq!(
        cfg.serialize(),
        "g : {\n  n = 0xFF;\n  neg = 0xFFFFFFFF;\n  big = 0xFFFFFFFFFFFFFFFFL;\n  s = \"x\";\n};\n"
    );
}

#[test]
fn document_options() {
    let mut cfg = Config::new();
    assert_eq!(cfg.tab_width(), 2);
    cfg.set_tab_width(0x34);
    assert_eq!(cfg.tab_width(), 4);
    cfg.set_tab_width(16);
    assert_eq!(cfg.tab_width(), 0);
    assert_eq!(cfg.get_include_dir(), None);
    cfg.include_dir("/etc/conf.d");
    assert_eq!(cfg.get_include_dir(), Some("/etc/conf.d".to_string()));
    assert_eq!(Errors::ParseError { line: 3 }.message(), "syntax error");
}

#[test]
fn float_literals() {
    for good in ["1.5", "-1.5", "+.5", "1.", "1e5", "1E-5", "1.5e+10", ".5e1", "0.99991"] {
        assert_eq!(Float::parse(good).unwrap().text(), good);
    }
    for bad in ["", "1", "-", ".", "e5", "1.5x", " 1.5", "1e", "1e+", "0x1.5", "1.5.5", "NaN"] {
        assert!(Float::parse(bad).is_none(), "{}", bad);
    }
}

#[test]
fn value_is_replaced_as_a_whole() {
    let mut cfg = Config::new();
    let g = cfg.create_section("g").unwrap();
    g.write_int32(&mut cfg, "n", 1).unwrap();
    g.write_string(&mut cfg, "s", "old").unwrap();
    let arr = g.create_array(&mut cfg, "arr").unwrap();
    arr.write_bool(&mut cfg, true).unwrap();
    let n = OptionWriter::new(cfg.value("g.n").unwrap().element);
    let s = OptionWriter::new(cfg.value("g.s").unwrap().element);
    let first = OptionWriter::new(cfg.value("g.arr.0").unwrap().element);
    assert_eq!(n.set_value(&mut cfg, Value::Int32(2)), Ok(()));
    assert_eq!(s.set_value(&mut cfg, Value::Str("new".to_string())), Ok(()));
    assert_eq!(first.set_value(&mut cfg, Value::Bool(false)), Ok(()));
    assert_eq!(n.set_value(&mut cfg, Value::Int64(2)), Err(Errors::TypeMismatch));
    assert_eq!(first.set_value(&mut cfg, Value::Int32(0)), Err(Errors::TypeMismatch));
    assert_eq!(g.set_value(&mut cfg, Value::Int32(0)), Err(Errors::TypeMismatch));
    assert_eq!(
        OptionWriter::new(None).set_value(&mut cfg, Value::Int32(0)),
        Err(Errors::ElementNotExists)
    );
    assert_eq!(cfg.serialize(), "g : {\n  n = 2;\n  s = \"new\";\n  arr = [ false ];\n};\n");
    assert_eq!(n.delete(&mut cfg), Ok(()));
    assert_eq!(n.set_value(&mut cfg, Value::Int32(3)), Err(Errors::StaleReference));
}

#[test]
fn conversion_switch_is_kept() {
    let mut cfg = Config::new();
    assert_eq!(cfg.auto_convert(), false);
    cfg.set_auto_convert(true);
    assert_eq!(cfg.auto_convert(), true);
    let g = cfg.create_section("g").unwrap();
    g.write_int32(&mut cfg, "n", 1).unwrap();
    // The library itself reads a value as what it is.
    assert!(cfg.value("g.n").unwrap().as_float64(&cfg).is_none());
    assert_eq!(cfg.load_from_string("x = 1;"), Ok(()));
    assert_eq!(cfg.auto_convert(), true);
}

#[test]
fn a_name_counts_in_groups_only() {
    let mut cfg = Config::new();
    let g = cfg.create_section("g").unwrap();
    let arr = g.create_array(&mut cfg, "arr").unwrap();
    let l = g.create_list(&mut cfg, "l").unwrap();
    let through_arr = OptionWriter::new(arr.element);
    let through_list = OptionWriter::new(l.element);
    assert_eq!(through_arr.write_int32(&mut cfg, "not a name", 1), Ok(through_arr));
    assert_eq!(through_arr.write_int32(&mut cfg, "not a name", 2), Ok(through_arr));
    assert_eq!(through_list.write_string(&mut cfg, "", "x"), Ok(through_list));
    assert_eq!(cfg.value("g.arr.1").unwrap().name(&cfg), None);
    assert_eq!(cfg.serialize(), "g : {\n  arr = [ 1, 2 ];\n  l = ( \"x\" );\n};\n");
    // A collection writer on a group has no name to give.
    let on_group = libconfig::config::CollectionWriter::new(g.element);
    assert_eq!(on_group.write_int32(&mut cfg, 1).err(), Some(Errors::InvalidName));
}

#[test]
fn the_store_only_grows() {
    let mut cfg = Config::new();
    assert_eq!(cfg.capacity(), 1);
    let g = cfg.create_section("g").unwrap();
    assert_eq!(g.element, Some(1));
    g.write_int32(&mut cfg, "n", 1).unwrap();
    assert_eq!(cfg.capacity(), 3);
    g.delete(&mut cfg).unwrap();
    assert_eq!(cfg.capacity(), 3);
    let h = cfg.create_section("h").unwrap();
    assert_eq!(h.element, Some(3));
    assert_eq!(cfg.validate(Some(1)), Err(Errors::StaleReference));
    assert_eq!(cfg.validate(Some(3)), Ok(3));
    assert_eq!(cfg.validate(None), Err(Errors::ElementNotExists));
    assert_eq!(cfg.resolve(0, "h"), Some(3));
    assert_eq!(cfg.root_index(), Some(0));
}
