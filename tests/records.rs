use typesxml::actions::{Add, Fix, Merge, Remove, SetValue, Show};
use typesxml::number::{parse_i64, parse_u32, parse_u8};
use typesxml::pattern::{Find, NamePattern};
use typesxml::raw;
use typesxml::util::{fmt_slice, parse_bool_or_false, parse_xml_bool, trim_xml_spaces};
use typesxml::{Error, FieldValue, FlagValues, Flags, Named, Tier, Type, Types, Value};

fn text(s: &str) -> Option<String> {
    Some(s.to_string())
}

fn raw_record(name: &str) -> raw::Type {
    raw::Type {
        name: name.to_string(),
        nominal: text("10"),
        lifetime: text("3600"),
        restock: None,
        min: text("5"),
        quantmin: text("-1"),
        quantmax: text("-1"),
        cost: text("100"),
        flags: Some(raw::Flags {
            count_in_cargo: text("0"),
            count_in_hoarder: text("0"),
            count_in_map: text("1"),
            count_in_player: text("0"),
            crafted: text("0"),
            deloot: text("0"),
        }),
        category: Some(raw::Named { name: text("weapons") }),
        usages: Some(vec![
            raw::Named { name: text("Military") },
            raw::Named { name: None },
            raw::Named { name: text("Police") },
        ]),
        values: None,
    }
}

fn with_nominal(name: &str, nominal: u8) -> Type {
    let mut t = Type::new(name);
    t.set_nominal(Some(nominal));
    t
}

fn collection(records: Vec<Type>) -> Types {
    let mut types = Types::new();
    for t in records {
        types.add(t);
    }
    types
}

fn names(types: &Types) -> Vec<String> {
    types.types().iter().map(|t| t.get_name().to_string()).collect()
}

#[test]
fn parses_integers_as_std_does() {
    assert_eq!(parse_u8("255"), Some(255));
    assert_eq!(parse_u8("256"), None);
    assert_eq!(parse_u8("+7"), Some(7));
    assert_eq!(parse_u8("-1"), None);
    assert_eq!(parse_u8(""), None);
    assert_eq!(parse_u8("+"), None);
    assert_eq!(parse_u8(" 1"), None);
    assert_eq!(parse_u32("4294967295"), Some(4294967295));
    assert_eq!(parse_u32("4294967296"), None);
    assert_eq!(parse_u32("007"), Some(7));
    assert_eq!(parse_i64("-9223372036854775808"), Some(i64::MIN));
    assert_eq!(parse_i64("9223372036854775807"), Some(i64::MAX));
    assert_eq!(parse_i64("9223372036854775808"), None);
    assert_eq!(parse_i64("-1"), Some(-1));
    assert_eq!(parse_i64("-"), None);
    assert_eq!(parse_i64("12a"), None);
}

#[test]
fn lenient_flag_values() {
    assert!(parse_bool_or_false("2"));
    assert!(!parse_bool_or_false("0"));
    assert!(!parse_bool_or_false("abc"));
    assert!(parse_bool_or_false("true"));
    assert!(!parse_bool_or_false("false"));
    assert!(parse_bool_or_false("256"));
    assert!(parse_bool_or_false("-1"));
    assert!(parse_bool_or_false("+3"));
    assert!(parse_bool_or_false("123456789012345678901234567890"));
    assert!(!parse_bool_or_false("-0"));
    assert!(!parse_bool_or_false("000"));
    assert!(!parse_bool_or_false("+"));
    assert!(!parse_bool_or_false("1.5"));
    assert!(!parse_bool_or_false(" 1"));
    assert!(!parse_bool_or_false(""));
}

#[test]
fn strict_flag_values() {
    assert_eq!(parse_xml_bool("1"), Some(true));
    assert_eq!(parse_xml_bool(" true\n"), Some(true));
    assert_eq!(parse_xml_bool("0"), Some(false));
    assert_eq!(parse_xml_bool("false"), Some(false));
    assert_eq!(parse_xml_bool("2"), None);
    assert_eq!(parse_xml_bool("yes"), None);
    assert_eq!(trim_xml_spaces(" \t 42\r\n"), "42");
    assert_eq!(trim_xml_spaces("   "), "");
}

#[test]
fn lenient_read_defaults_a_non_numeric_lifetime_to_zero() {
    let mut r = raw_record("Apple");
    r.lifetime = text("forever");
    let t = Type::from_raw(&r);
    assert_eq!(t.lifetime(), 0);
    assert_eq!(t.get_name(), "Apple");
    assert_eq!(t.nominal(), Some(10));
}

#[test]
fn lenient_read_replaces_malformed_values() {
    let mut r = raw_record("Apple");
    r.nominal = text("lots");
    r.min = None;
    r.quantmin = text("");
    r.quantmax = text("x");
    r.cost = text("-3");
    r.flags = Some(raw::Flags {
        count_in_cargo: text("2"),
        count_in_hoarder: text("abc"),
        count_in_map: None,
        count_in_player: text("true"),
        crafted: text("0"),
        deloot: text("1"),
    });
    let t = Type::from_raw(&r);
    assert_eq!(t.nominal(), None);
    assert_eq!(t.min(), 0);
    assert_eq!(t.quantmin(), None);
    assert_eq!(t.quantmax(), 0);
    assert_eq!(t.cost(), None);
    let f = t.flags();
    assert!(f.count_in_cargo);
    assert!(!f.count_in_hoarder);
    assert!(!f.count_in_map);
    assert!(f.count_in_player);
    assert!(!f.crafted);
    assert!(f.deloot);
    let usages: Vec<&str> = t.usages().unwrap().iter().map(|n| n.name()).collect();
    assert_eq!(usages, vec!["Military", "Police"]);
    assert_eq!(t.category().unwrap().name(), "weapons");
}

#[test]
fn lenient_read_without_flags_or_category_name() {
    let mut r = raw_record("Apple");
    r.flags = None;
    r.category = Some(raw::Named { name: None });
    let t = Type::from_raw(&r);
    assert_eq!(t.flags(), Flags::default());
    assert!(t.category().is_none());
}

#[test]
fn strict_read_accepts_a_valid_record() {
    let mut r = raw_record("Apple");
    r.usages = Some(vec![raw::Named { name: text("Military") }]);
    r.lifetime = text(" 3600 ");
    let t = Type::try_from_raw(&r).unwrap();
    assert_eq!(t.lifetime(), 3600);
    assert_eq!(t.quantmin(), Some(-1));
    assert_eq!(t.restock(), None);
    assert!(t.flags().count_in_map);
}

#[test]
fn strict_read_refuses_malformed_records() {
    let mut r = raw_record("Apple");
    r.usages = None;
    let mut bad = r.clone();
    bad.lifetime = text("forever");
    assert_eq!(Type::try_from_raw(&bad), Err(Error::ValidationFailure));
    let mut bad = r.clone();
    bad.lifetime = None;
    assert_eq!(Type::try_from_raw(&bad), Err(Error::ValidationFailure));
    let mut bad = r.clone();
    bad.nominal = text("256");
    assert_eq!(Type::try_from_raw(&bad), Err(Error::ValidationFailure));
    let mut bad = r.clone();
    bad.flags = None;
    assert_eq!(Type::try_from_raw(&bad), Err(Error::ValidationFailure));
    let mut bad = r.clone();
    bad.usages = Some(vec![raw::Named { name: None }]);
    assert_eq!(Type::try_from_raw(&bad), Err(Error::ValidationFailure));
    let doc = raw::Types { types: Some(vec![r.clone(), bad]) };
    assert_eq!(Types::try_from_raw(&doc), Err(Error::ValidationFailure));
    let doc = raw::Types { types: Some(vec![r.clone()]) };
    assert_eq!(Types::try_from_raw(&doc).unwrap().len(), 1);
}

#[test]
fn lenient_read_of_a_document() {
    let mut bad = raw_record("Banana");
    bad.lifetime = text("soon");
    let doc = raw::Types { types: Some(vec![raw_record("Apple"), bad]) };
    let types = Types::read_gracefully(&doc);
    assert_eq!(names(&types), vec!["Apple", "Banana"]);
    assert_eq!(types.types()[1].lifetime(), 0);
    assert_eq!(Fix.repair(&doc), types);
    assert_eq!(Types::read_gracefully(&raw::Types { types: None }).len(), 0);
}

#[test]
fn add_keeps_the_first_record_of_a_name() {
    let mut types = collection(vec![with_nominal("Ammo_9x19", 20)]);
    let before = types.clone();
    types.add(Type::new("Ammo_9x19"));
    assert_eq!(types, before);
    assert_eq!(types.types()[0].nominal(), Some(20));
    types.add(Type::new("Ammo_45ACP"));
    assert_eq!(names(&types), vec!["Ammo_9x19", "Ammo_45ACP"]);
}

#[test]
fn remove_of_a_missing_name_changes_nothing() {
    let mut types = collection(vec![Type::new("A"), Type::new("B")]);
    assert!(types.remove("X").is_none());
    assert_eq!(types.len(), 2);
    let removed = types.remove("A").unwrap();
    assert_eq!(removed.get_name(), "A");
    assert_eq!(names(&types), vec!["B"]);
}

#[test]
fn merge_example() {
    let base = collection(vec![with_nominal("Apple", 10)]);
    let ext = collection(vec![with_nominal("Apple", 5), with_nominal("Banana", 3)]);
    let merged = base.merge(ext);
    assert_eq!(names(&merged), vec!["Apple", "Banana"]);
    assert_eq!(merged.types()[0].nominal(), Some(5));
    assert_eq!(merged.types()[1].nominal(), Some(3));
}

#[test]
fn merge_unions_names_sorted_and_extension_wins() {
    let base = collection(vec![with_nominal("c", 1), with_nominal("a", 1), with_nominal("B", 1)]);
    let ext = collection(vec![with_nominal("b", 2), with_nominal("a", 2)]);
    let merged = base.clone().merge(ext.clone());
    assert_eq!(names(&merged), vec!["B", "a", "b", "c"]);
    let nominals: Vec<Option<u8>> = merged.types().iter().map(|t| t.nominal()).collect();
    assert_eq!(nominals, vec![Some(1), Some(2), Some(2), Some(1)]);
    let again = merged.clone().merge(ext);
    assert_eq!(again, merged);
    let with_itself = base.clone().merge(base);
    assert_eq!(names(&with_itself), vec!["B", "a", "c"]);
}

#[test]
fn merge_of_empty_collections() {
    let merged = Types::new().merge(Types::new());
    assert_eq!(merged.len(), 0);
    assert_eq!(merged.to_xml(), "<types/>");
}

#[test]
fn setters_change_one_field() {
    let mut t = Type::new("Apple");
    t.set_name("Pear");
    t.set_lifetime(7);
    t.set_restock(Some(8));
    t.set_min(2);
    t.set_quantmin(Some(-1));
    t.set_quantmax(50);
    t.set_cost(Some(100));
    t.mut_flags().set_crafted(true);
    t.mut_flags().set_deloot(true);
    let cat = Named::new("food".to_string());
    t.set_category(Some(&cat));
    let tags = vec![Named::new("Farm".to_string()), Named::new("Farm".to_string())];
    t.set_usages(Some(&tags));
    t.set_values(None);
    assert_eq!(t.get_name(), "Pear");
    assert_eq!(t.lifetime(), 7);
    assert_eq!(t.restock(), Some(8));
    assert_eq!(t.min(), 2);
    assert_eq!(t.quantmax(), 50);
    assert!(t.flags().crafted && t.flags().deloot && !t.flags().count_in_map);
    assert_eq!(t.usages().unwrap().len(), 2);
    let mut f = Flags::none();
    f.set_count_in_cargo(true);
    f.set_count_in_hoarder(true);
    f.set_count_in_map(true);
    f.set_count_in_player(true);
    t.set_flags(f);
    assert!(t.flags().count_in_player && !t.flags().crafted);
}

#[test]
fn set_value_matches_names_ignoring_case() {
    let mut types = collection(vec![Type::new("Apple"), Type::new("apple")]);
    let r = types.set_value("APPLE", &FieldValue::Nominal { nominal: Some(9) });
    assert_eq!(r, Ok(()));
    assert_eq!(types.types()[0].nominal(), Some(9));
    assert_eq!(types.types()[1].nominal(), None);
    let r = types.set_value(
        "apple",
        &FieldValue::Flags { flags: FlagValues::CountInMap { count_in_map: true } },
    );
    assert_eq!(r, Ok(()));
    assert!(types.types()[0].flags().count_in_map);
    let before = types.clone();
    assert_eq!(types.set_value("Pear", &FieldValue::Lifetime { lifetime: 1 }), Err(Error::NotFound));
    assert_eq!(types, before);
}

#[test]
fn record_as_compact_xml() {
    let t = Type::from_raw(&raw_record("A&B \"x\" <y>"));
    assert_eq!(
        t.to_xml(),
        "<type name=\"A&amp;B &quot;x&quot; &lt;y&gt;\"><nominal>10</nominal><lifetime>3600</lifetime>\
<min>5</min><quantmin>-1</quantmin><quantmax>-1</quantmax><cost>100</cost>\
<flags count_in_cargo=\"0\" count_in_hoarder=\"0\" count_in_map=\"1\" count_in_player=\"0\" crafted=\"0\" deloot=\"0\"/>\
<category name=\"weapons\"/><usage name=\"Military\"/><usage name=\"Police\"/></type>"
    );
}

#[test]
fn collection_as_indented_xml() {
    let types = collection(vec![Type::new("Apple")]);
    let expected = "<types>\n    <type name=\"Apple\">\n        <lifetime>0</lifetime>\n        <min>0</min>\n        \
<quantmax>0</quantmax>\n        <flags count_in_cargo=\"0\" count_in_hoarder=\"0\" count_in_map=\"0\" \
count_in_player=\"0\" crafted=\"0\" deloot=\"0\"/>\n    </type>\n</types>";
    assert_eq!(types.to_xml_pretty(' ', 4), expected);
    assert_eq!(types.to_string(), expected);
    assert_eq!(
        types.to_xml_pretty('\t', 1),
        expected.replace("        ", "\t\t").replace("    ", "\t")
    );
}

#[test]
fn record_written_for_people() {
    let t = Type::from_raw(&raw_record("Apple"));
    assert_eq!(
        t.to_string(),
        "name    :\tApple\nnominal :\t10\nlifetime:\t3600\nmin     :\t5\nquantmin:\t-1\nquantmax:\t-1\n\
cost    :\t100\nflags   :\t[ count_in_cargo = false, count_in_hoarder = false, count_in_map = true, \
count_in_player = false, crafted = false, deloot = false ]\ncategory:\tweapons\nusages  :\t[ Military, Police ]"
    );
}

#[test]
fn slices_written_for_people() {
    let mut out = String::new();
    fmt_slice(&mut out, "x: ", &[]);
    assert_eq!(out, "x: [  ]");
    let mut out = String::new();
    fmt_slice(&mut out, "", &[Named::new("a".to_string()), Named::new("b".to_string())]);
    assert_eq!(out, "[ a, b ]");
}

#[test]
fn tiers_and_values() {
    assert_eq!(Tier::from_str("Tier3"), Ok(Tier::Tier3));
    assert_eq!(Tier::from_str("tier3"), Err("Invalid tier: tier3".to_string()));
    assert_eq!(Tier::Tier4.to_string(), "Tier4");
    assert_eq!(Value::from_str("Tier1").to_string(), "Tier1");
    assert_eq!(Named::new("x".to_string()).to_string(), "x");
}

#[test]
fn commands_edit_and_pick_destinations() {
    let mut types = Types::new();
    let add = Add { name: "Apple".to_string(), output: None, in_place: true };
    add.apply(&mut types);
    add.apply(&mut types);
    assert_eq!(names(&types), vec!["Apple"]);
    assert_eq!(add.destination("types.xml"), Some("types.xml".to_string()));
    let set = SetValue {
        name: "apple".to_string(),
        field_value: FieldValue::Cost { cost: Some(3) },
        output: Some("out.xml".to_string()),
        in_place: false,
    };
    assert_eq!(set.apply(&mut types), Ok(()));
    assert_eq!(types.types()[0].cost(), Some(3));
    assert_eq!(set.destination("types.xml"), Some("out.xml".to_string()));
    let show = Show { name: "APPLE".to_string(), xml: false };
    assert!(show.render(&types).unwrap().starts_with("name    :\tApple\nlifetime:\t0"));
    let show = Show { name: "Pear".to_string(), xml: true };
    assert_eq!(show.render(&types), None);
    let remove = Remove { name: "Apple".to_string(), output: None, in_place: false };
    assert!(remove.apply(&mut types).is_some());
    assert_eq!(remove.destination("types.xml"), None);
    let merge = Merge { extension: "ext.xml".to_string(), output: None };
    assert_eq!(merge.destination(), None);
}

#[test]
fn find_by_regular_expression() {
    let types = collection(vec![Type::new("Ammo_9x19"), Type::new("Apple"), Type::new("Ammo_45ACP")]);
    let find = Find { regex: NamePattern::new("^Ammo_\\d").unwrap(), xml: true };
    let found = find.render(&types);
    assert_eq!(found.len(), 2);
    assert!(found[0].starts_with("<type name=\"Ammo_9x19\">"));
    assert!(found[1].starts_with("<type name=\"Ammo_45ACP\">"));
    let picked = find.render_selected(&types, &[false, true, false]);
    assert_eq!(picked.len(), 1);
    assert!(picked[0].starts_with("<type name=\"Apple\">"));
    assert!(NamePattern::new("(").is_err());
    assert!(NamePattern::new("pple$").unwrap().is_match("Apple"));
}

#[test]
fn written_tree_reads_back_as_the_record() {
    let mut t = Type::new("Ammo_9x19");
    t.set_nominal(Some(255));
    t.set_lifetime(u32::MAX);
    t.set_restock(Some(0));
    t.set_min(7);
    t.set_quantmin(Some(i64::MIN));
    t.set_quantmax(i64::MAX);
    t.set_cost(None);
    t.mut_flags().set_count_in_player(true);
    let usages = vec![Named::new("Town".to_string()), Named::new("Town".to_string())];
    t.set_usages(Some(&usages));
    let tree = raw::Type {
        name: "Ammo_9x19".to_string(),
        nominal: text("255"),
        lifetime: text("4294967295"),
        restock: text("0"),
        min: text("7"),
        quantmin: text("-9223372036854775808"),
        quantmax: text("9223372036854775807"),
        cost: None,
        flags: Some(raw::Flags {
            count_in_cargo: text("0"),
            count_in_hoarder: text("0"),
            count_in_map: text("0"),
            count_in_player: text("1"),
            crafted: text("0"),
            deloot: text("0"),
        }),
        category: None,
        usages: Some(vec![raw::Named { name: text("Town") }, raw::Named { name: text("Town") }]),
        values: None,
    };
    assert_eq!(Type::try_from_raw(&tree), Ok(t.clone()));
    assert_eq!(Type::from_raw(&tree), t);
    assert_eq!(
        t.to_xml(),
        "<type name=\"Ammo_9x19\"><nominal>255</nominal><lifetime>4294967295</lifetime>\
<restock>0</restock><min>7</min><quantmin>-9223372036854775808</quantmin>\
<quantmax>9223372036854775807</quantmax><flags count_in_cargo=\"0\" count_in_hoarder=\"0\" \
count_in_map=\"0\" count_in_player=\"1\" crafted=\"0\" deloot=\"0\"/>\
<usage name=\"Town\"/><usage name=\"Town\"/></type>"
    );
}

#[test]
fn record_with_an_empty_name() {
    let t = Type::new("");
    assert_eq!(t.get_name(), "");
    assert!(t.to_xml().starts_with("<type name=\"\"><lifetime>0</lifetime>"));
    let mut types = collection(vec![Type::new("")]);
    types.add(Type::new(""));
    assert_eq!(types.len(), 1);
    assert_eq!(types.position(""), Some(0));
    assert_eq!(types.position_ignoring_case("x"), None);
}

#[test]
fn records_edited_in_place() {
    let mut types = collection(vec![Type::new("Apple"), Type::new("Pear")]);
    types.mut_types()[1].set_min(3);
    for t in types.mut_types().iter_mut() {
        t.set_cost(Some(1));
    }
    assert_eq!(types.types()[0].min(), 0);
    assert_eq!(types.types()[1].min(), 3);
    assert!(types.types().iter().all(|t| t.cost() == Some(1)));
}

#[test]
fn lenient_read_takes_values_as_they_stand() {
    let mut r = raw_record("Apple");
    r.nominal = text(" 5");
    r.lifetime = text(" 5 ");
    r.min = text("5 ");
    r.quantmax = text("\t-2");
    r.cost = text("7");
    r.flags = Some(raw::Flags {
        count_in_cargo: text(" 1"),
        count_in_hoarder: text("-1"),
        count_in_map: text("2 "),
        count_in_player: text("true"),
        crafted: text("256"),
        deloot: text(" true"),
    });
    let t = Type::from_raw(&r);
    assert_eq!(t.nominal(), None);
    assert_eq!(t.lifetime(), 0);
    assert_eq!(t.min(), 0);
    assert_eq!(t.quantmax(), 0);
    assert_eq!(t.cost(), Some(7));
    let f = t.flags();
    assert!(!f.count_in_cargo && f.count_in_hoarder && !f.count_in_map);
    assert!(f.count_in_player && f.crafted && !f.deloot);
    let mut strict = raw_record("Apple");
    strict.usages = None;
    strict.lifetime = text(" 5 ");
    assert_eq!(Type::try_from_raw(&strict).unwrap().lifetime(), 5);
}

#[test]
fn written_document_reads_back_as_the_collection() {
    let mut apple = Type::new("Apple");
    apple.set_nominal(Some(10));
    let pear = Type::new("Pear");
    let types = collection(vec![apple, pear]);
    let tree = |name: &str, nominal: Option<String>| raw::Type {
        name: name.to_string(),
        nominal,
        lifetime: text("0"),
        restock: None,
        min: text("0"),
        quantmin: None,
        quantmax: text("0"),
        cost: None,
        flags: Some(raw::Flags {
            count_in_cargo: text("0"),
            count_in_hoarder: text("0"),
            count_in_map: text("0"),
            count_in_player: text("0"),
            crafted: text("0"),
            deloot: text("0"),
        }),
        category: None,
        usages: None,
        values: None,
    };
    let doc = raw::Types { types: Some(vec![tree("Apple", text("10")), tree("Pear", None)]) };
    assert_eq!(Types::try_from_raw(&doc), Ok(types.clone()));
    assert_eq!(Types::read_gracefully(&doc), types);
    let empty = raw::Types { types: None };
    assert_eq!(Types::try_from_raw(&empty), Ok(Types::new()));
    assert_eq!(Types::new().to_xml_pretty(' ', 4), "<types/>");
}
