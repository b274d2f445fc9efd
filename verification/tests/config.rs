use libconfig::config::Config;
use libconfig::value::{Float, OptionType};

fn near(x: f64, y: f64, d: f64) -> bool {
    (x - y).abs() < d
}

#[test]
fn test_parse_config_string() {
    let mut cfg = Config::new();
    assert_eq!(
        cfg.load_from_string(
            "section1 : { 
            integer_value = -12; 
            boolean_value = false;
            long_integer_value = 99991L;
            float_value = 0.99991;
            string_value = \"test string\";
        };"
        )
        .is_ok(),
        true
    );

    // The root is the one setting without a parent: a top-level section is
    // below it.
    assert!(!cfg.value("section1").unwrap().is_root(&cfg).unwrap());
    assert!(cfg.root().is_root(&cfg).unwrap());
    assert!(cfg.value("section1").unwrap().is_section(&cfg).unwrap());

    assert_eq!(
        cfg.value("section1.integer_value").unwrap().value_type(&cfg).unwrap(),
        OptionType::IntegerType
    );
    assert_eq!(cfg.value("section1.integer_value").unwrap().as_int32(&cfg).unwrap(), -12);

    assert_eq!(
        cfg.value("section1.boolean_value").unwrap().value_type(&cfg).unwrap(),
        OptionType::BooleanType
    );
    assert_eq!(cfg.value("section1.boolean_value").unwrap().as_bool(&cfg).unwrap(), false);

    assert_eq!(
        cfg.value("section1.long_integer_value").unwrap().value_type(&cfg).unwrap(),
        OptionType::Int64Type
    );
    assert_eq!(cfg.value("section1.long_integer_value").unwrap().as_int64(&cfg).unwrap(), 99991);

    assert_eq!(
        cfg.value("section1.float_value").unwrap().value_type(&cfg).unwrap(),
        OptionType::FloatType
    );
    let f = cfg.value("section1.float_value").unwrap().as_float64(&cfg).unwrap();
    assert!(near(f.text().parse::<f64>().unwrap(), 0.99991, 0.00001));

    assert_eq!(
        cfg.value("section1.string_value").unwrap().value_type(&cfg).unwrap(),
        OptionType::StringType
    );
    assert_eq!(
        cfg.value("section1.string_value").unwrap().as_string(&cfg).unwrap(),
        "test string"
    );
}

#[test]
fn test_create_section() {
    let mut cfg = Config::new();
    let root = cfg.create_section("root_section").unwrap();
    let group = root.create_section(&mut cfg, "group").unwrap();
    let _val_i32 = group.write_int32(&mut cfg, "test", 123);
    let _val_i64 = group.write_int64(&mut cfg, "test2", 100000002);
    let literal = format!("{:?}", 1.00023f64);
    let _val_f64 = group.write_float64(&mut cfg, "test3", &Float::parse(&literal).unwrap());
    let _val_bool = group.write_bool(&mut cfg, "test4", true);
    let _val_str = group.write_string(&mut cfg, "test5", "string string");

    let saved = cfg.serialize();
    assert_eq!(
        saved,
        "root_section : {\n  group : {\n    test = 123;\n    test2 = 100000002L;\n    test3 = 1.00023;\n    test4 = true;\n    test5 = \"string string\";\n  };\n};\n"
    );

    assert_eq!(cfg.load_from_string(&saved).is_ok(), true);
    assert_eq!(cfg.value("root_section").is_some(), true);
    assert_eq!(cfg.value("root_section").unwrap().is_section(&cfg).unwrap(), true);
    assert_eq!(cfg.value("root_section.group").is_some(), true);
    assert_eq!(cfg.value("root_section.group").unwrap().is_root(&cfg).unwrap(), false);
    assert_eq!(cfg.value("root_section.group").unwrap().is_section(&cfg).unwrap(), true);
    assert_eq!(cfg.value("root_section.group.test").unwrap().as_int32(&cfg).unwrap(), 123);
    assert_eq!(
        cfg.value("root_section.group.test2").unwrap().as_int64(&cfg).unwrap(),
        100000002
    );
    let f = cfg.value("root_section.group.test3").unwrap().as_float64(&cfg).unwrap();
    assert!(near(f.text().parse::<f64>().unwrap(), 1.00023, 0.00001));
    assert_eq!(cfg.value("root_section.group.test4").unwrap().as_bool(&cfg).unwrap(), true);
    assert_eq!(
        cfg.value("root_section.group.test5").unwrap().as_string(&cfg).unwrap(),
        "string string"
    );
    assert_eq!(cfg.serialize(), saved);
}
