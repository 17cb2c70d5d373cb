//! End-to-end checks of the renderer: single-line fit, block fallback,
//! truncation, determinism, empties and separators.

use gel_cli::print::Config;
use gel_cli::print::json_item_to_string;
use gel_cli::print::json_to_string;
use gel_cli::print::style::Style;
use gel_cli::print::stream::RowsDriver;
use gel_cli::print::value::Field;
use gel_cli::print::value::Item;
use gel_cli::print::value::ObjectItem;
use gel_cli::repl::VectorLimit;

fn num(s: &str) -> Item {
    Item::Scalar(Style::NumberLit, s.to_string())
}

fn no_color() -> Config {
    let mut c = Config::new();
    c.colors(false);
    c
}

#[test]
fn fitting_line_renders_flow() {
    let items = vec![num("1"), num("2"), num("3")];
    let cfg = no_color();
    assert_eq!(json_to_string(&items, &cfg), "[1, 2, 3]");
}

#[test]
fn overflow_renders_block() {
    let items = vec![num("1"), num("2"), num("3")];
    let mut cfg = no_color();
    cfg.max_width(5);
    assert_eq!(json_to_string(&items, &cfg), "[\n  1,\n  2,\n  3\n]");
}

#[test]
fn block_indent_follows_config() {
    let items = vec![num("7")];
    let mut cfg = no_color();
    cfg.max_width(2);
    let mut wide = no_color();
    wide.max_width(2);
    wide.indent = 4;
    assert_eq!(json_to_string(&items, &cfg), "[\n  7\n]");
    assert_eq!(json_to_string(&items, &wide), "[\n    7\n]");
}

#[test]
fn empty_json_is_bare_brackets() {
    let items: Vec<Item> = Vec::new();
    let cfg = no_color();
    assert_eq!(json_to_string(&items, &cfg), "[]");
    let mut narrow = no_color();
    narrow.max_width(0);
    assert_eq!(json_to_string(&items, &narrow), "[]");
}

#[test]
fn empty_native_is_bare_braces() {
    let cfg = no_color();
    let driver = RowsDriver::new(&cfg, 80, false);
    assert_eq!(driver.finish(), "{}");
}

#[test]
fn native_trailing_comma_on_one_line() {
    let cfg = no_color();
    let mut driver = RowsDriver::new(&cfg, 80, false);
    driver.push(num("1"));
    driver.push(num("2"));
    assert_eq!(driver.finish(), "{1, 2,}");
}

#[test]
fn json_has_no_trailing_comma() {
    let items = vec![num("1"), num("2"), num("3")];
    let cfg = no_color();
    let out = json_to_string(&items, &cfg);
    assert!(!out.contains(",]"));
    assert_eq!(out, "[1, 2, 3]");
}

#[test]
fn item_cap_truncates_and_drains() {
    let mut cfg = no_color();
    cfg.max_items(Some(2));
    let mut driver = RowsDriver::new(&cfg, 80, false);
    let mut fed = 0;
    for s in ["1", "2", "3", "4", "5"] {
        driver.push(num(s));
        fed += 1;
    }
    // every row was accepted, so the source was fully consumed
    assert_eq!(fed, 5);
    assert_eq!(driver.finish(), "{1, 2, ...}");
}

#[test]
fn item_cap_in_block_layout() {
    let mut cfg = no_color();
    cfg.max_items(Some(2));
    let mut driver = RowsDriver::new(&cfg, 6, false);
    for s in ["100", "200", "300", "400"] {
        driver.push(num(s));
    }
    assert_eq!(driver.finish(), "{\n  100,\n  200,\n  ...\n}");
}

#[test]
fn rendering_is_deterministic() {
    let items = vec![num("10"), num("20"), num("30"), num("40")];
    let mut cfg = no_color();
    cfg.max_width(9);
    let a = json_to_string(&items, &cfg);
    let b = json_to_string(&items, &cfg);
    assert_eq!(a, b);
}

#[test]
fn replayed_items_match_solo_renders() {
    // the driver falls back partway through; each replayed row must equal
    // what rendering that row alone produces
    let cfg = no_color();
    let mut driver = RowsDriver::new(&cfg, 10, false);
    for s in ["1111", "2222", "3333"] {
        driver.push(num(s));
    }
    let out = driver.finish();
    assert_eq!(out, "{\n  1111,\n  2222,\n  3333,\n}");
    for s in ["1111", "2222", "3333"] {
        let solo = json_item_to_string(&num(s), &cfg);
        assert!(out.lines().any(|l| l.trim().trim_end_matches(',') == solo));
    }
}

#[test]
fn single_scalar_renders_directly() {
    let cfg = no_color();
    assert_eq!(json_item_to_string(&num("42"), &cfg), "42");
}

#[test]
fn string_scalar_is_quoted_and_escaped() {
    let cfg = no_color();
    let item = Item::Text("it's".to_string());
    assert_eq!(json_item_to_string(&item, &cfg), "'it\\'s'");
}

#[test]
fn control_characters_escape_unless_expanded() {
    let mut cfg = no_color();
    cfg.expand_strings(false);
    let item = Item::Text("a\nb".to_string());
    assert_eq!(json_item_to_string(&item, &cfg), "'a\\nb'");
    let mut expanded = no_color();
    expanded.expand_strings(true);
    assert_eq!(json_item_to_string(&item, &expanded), "'a\nb'");
}

#[test]
fn nested_collections_keep_separators_clean() {
    let inner = Item::SetOf(vec![num("1"), num("2"), num("3")]);
    let empty = Item::SetOf(Vec::new());
    let items = vec![inner, empty];
    let cfg = no_color();
    assert_eq!(json_to_string(&items, &cfg), "[{1, 2, 3}, {}]");
}

#[test]
fn nested_overflow_expands_every_level() {
    let inner = Item::ArrayOf(vec![num("1"), num("2")]);
    let items = vec![inner];
    let mut cfg = no_color();
    cfg.max_width(4);
    assert_eq!(json_to_string(&items, &cfg), "[\n  [\n    1,\n    2\n  ]\n]");
}

#[test]
fn tuple_uses_parentheses() {
    let t = Item::TupleOf(vec![num("1"), num("2")]);
    let cfg = no_color();
    assert_eq!(json_item_to_string(&t, &cfg), "(1, 2)");
}

#[test]
fn object_renders_label_and_fields() {
    let o = Item::Object(ObjectItem {
        name: "default::User".to_string(),
        fields: vec![
            Field { name: "id".to_string(), implicit: true, value: num("1") },
            Field { name: "age".to_string(), implicit: false, value: num("7") },
        ],
    });
    let cfg = no_color();
    assert_eq!(json_item_to_string(&o, &cfg), "default::User {age: 7}");
    let mut all = no_color();
    all.implicit_properties(true);
    assert_eq!(json_item_to_string(&o, &all), "default::User {id: 1, age: 7}");
}

#[test]
fn vector_honors_its_own_cap() {
    let v = Item::VectorOf(vec!["1".to_string(), "2".to_string(), "3".to_string()]);
    let mut cfg = no_color();
    cfg.max_vector_length(VectorLimit::Fixed(2));
    assert_eq!(json_item_to_string(&v, &cfg), "[1, 2, ...]");
    let unlimited = no_color();
    assert_eq!(json_item_to_string(&v, &unlimited), "[1, 2, 3]");
}

#[test]
fn colored_tokens_wrap_in_escape_sequences() {
    let mut cfg = Config::new();
    cfg.colors(true);
    cfg.max_width(200);
    let items = vec![num("1")];
    let out = json_to_string(&items, &cfg);
    // brackets stay bare on the machine-readable path; the number is styled
    assert_eq!(out, format!("[\u{1b}[38;5;114m1\u{1b}[0m]"));
}

#[test]
fn width_ignores_escape_sequences() {
    // the styled text is much longer in bytes, but its display width still
    // fits, so the layout stays on one line
    let mut cfg = Config::new();
    cfg.colors(true);
    cfg.max_width(9);
    let items = vec![num("1"), num("2"), num("3")];
    let out = json_to_string(&items, &cfg);
    assert!(out.starts_with('['));
    assert!(!out.contains('\n'));
}
