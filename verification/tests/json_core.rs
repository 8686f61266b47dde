use tbox::analyze::get_json_info;
use tbox::diff::compare_json;
use tbox::value::JsonValue;

#[test]
fn shape_depth_of_nested_object() {
    let info = get_json_info(String::from("{\"a\":{\"b\":1}}")).unwrap();
    assert!(info.is_valid);
    assert_eq!(info.depth, 2);
    assert_eq!(info.size, 13);
    assert_eq!(info.key_count, 2);
}

#[test]
fn shape_key_count_and_types_of_array_object() {
    let info = get_json_info(String::from("{\"a\":[1,2,3]}")).unwrap();
    assert_eq!(info.key_count, 1);
    assert_eq!(info.depth, 2);
    let mut types = info.value_types.clone();
    types.sort();
    assert_eq!(types, vec![
        String::from("array"),
        String::from("number"),
        String::from("object"),
    ]);
}

#[test]
fn shape_types_are_listed_once_each() {
    let info = get_json_info(String::from("[1,2,\"x\",true,null,{\"k\":[3]}]")).unwrap();
    assert_eq!(info.value_types, vec![
        String::from("object"),
        String::from("array"),
        String::from("string"),
        String::from("number"),
        String::from("boolean"),
        String::from("null"),
    ]);
}

#[test]
fn shape_scalar_document() {
    let info = get_json_info(String::from("42")).unwrap();
    assert_eq!(info.depth, 0);
    assert_eq!(info.key_count, 0);
    assert_eq!(info.value_types, vec![String::from("number")]);
}

#[test]
fn shape_parse_failure_is_an_error() {
    let r = get_json_info(String::from("{bad json"));
    match r {
        Err(e) => assert!(e.starts_with("JSON解析错误: ")),
        Ok(_) => panic!("a parse failure must be an error"),
    }
}

#[test]
fn diff_array_length_mismatch() {
    let d = compare_json(String::from("[1,2]"), String::from("[1,2,3]")).unwrap();
    assert_eq!(d.added, vec![String::from("$/[2]")]);
    assert!(d.removed.is_empty());
    assert!(d.modified.is_empty());
    assert_eq!(d.unchanged, vec![String::from("$/[0]"), String::from("$/[1]")]);
}

#[test]
fn diff_type_change_is_one_replacement() {
    let d = compare_json(String::from("{\"a\":1}"), String::from("{\"a\":[1]}")).unwrap();
    assert!(d.added.is_empty());
    assert!(d.removed.is_empty());
    assert!(d.unchanged.is_empty());
    assert_eq!(d.modified.len(), 1);
    let change = &d.modified[0];
    assert_eq!(change.path, "$/a");
    assert!(matches!(&change.old_value, JsonValue::Number(n) if n == "1"));
    match &change.new_value {
        JsonValue::Array(items) => {
            assert_eq!(items.len(), 1);
            assert!(matches!(&items[0], JsonValue::Number(n) if n == "1"));
        },
        _ => panic!("the replacement should carry the whole array"),
    }
}

#[test]
fn diff_key_change_end_to_end() {
    let d = compare_json(
        String::from("{\"x\":1,\"y\":2}"),
        String::from("{\"x\":1,\"z\":3}"),
    ).unwrap();
    assert_eq!(d.added, vec![String::from("$/z")]);
    assert_eq!(d.removed, vec![String::from("$/y")]);
    assert_eq!(d.unchanged, vec![String::from("$/x")]);
    assert!(d.modified.is_empty());
}

#[test]
fn diff_of_document_with_itself_is_all_unchanged() {
    let text = "{\"a\":{\"b\":1,\"c\":[true,null]},\"d\":\"s\"}";
    let d = compare_json(String::from(text), String::from(text)).unwrap();
    assert!(d.added.is_empty());
    assert!(d.removed.is_empty());
    assert!(d.modified.is_empty());
    assert_eq!(d.unchanged, vec![
        String::from("$/a/b"),
        String::from("$/a/c/[0]"),
        String::from("$/a/c/[1]"),
        String::from("$/d"),
    ]);
}

#[test]
fn diff_swapping_inputs_swaps_the_bins() {
    let a = String::from("{\"k\":[1,2],\"only_a\":1,\"same\":true}");
    let b = String::from("{\"k\":[1,3,4],\"only_b\":2,\"same\":true}");
    let ab = compare_json(a.clone(), b.clone()).unwrap();
    let ba = compare_json(b, a).unwrap();
    assert_eq!(ab.added, ba.removed);
    assert_eq!(ab.removed, ba.added);
    assert_eq!(ab.unchanged, ba.unchanged);
    assert_eq!(ab.modified.len(), ba.modified.len());
    for (x, y) in ab.modified.iter().zip(ba.modified.iter()) {
        assert_eq!(x.path, y.path);
        assert!(tbox::diff::values_equal(&x.old_value, &y.new_value));
        assert!(tbox::diff::values_equal(&x.new_value, &y.old_value));
    }
}

#[test]
fn diff_reports_which_side_failed() {
    match compare_json(String::from("{"), String::from("1")) {
        Err(e) => assert!(e.starts_with("第一个JSON解析错误: ")),
        Ok(_) => panic!("the first side must fail"),
    }
    match compare_json(String::from("1"), String::from("{")) {
        Err(e) => assert!(e.starts_with("第二个JSON解析错误: ")),
        Ok(_) => panic!("the second side must fail"),
    }
}

#[test]
fn diff_object_vs_array_at_root_is_one_replacement() {
    let d = compare_json(String::from("{\"a\":1}"), String::from("[1]")).unwrap();
    assert_eq!(d.modified.len(), 1);
    assert_eq!(d.modified[0].path, "$");
    assert!(d.added.is_empty() && d.removed.is_empty() && d.unchanged.is_empty());
}

#[test]
fn values_equal_depends_on_structure_only() {
    let a = JsonValue::Object(vec![
        (String::from("x"), JsonValue::Number(String::from("1"))),
        (String::from("y"), JsonValue::Text(String::from("s"))),
    ]);
    let b = a.deep_clone();
    assert!(tbox::diff::values_equal(&a, &b));
    let c = JsonValue::Object(vec![
        (String::from("x"), JsonValue::Number(String::from("1"))),
        (String::from("y"), JsonValue::Text(String::from("t"))),
    ]);
    assert!(!tbox::diff::values_equal(&a, &c));
}

#[test]
fn deeply_nested_document_is_refused() {
    let mut text = String::new();
    for _ in 0..200 {
        text.push('[');
    }
    text.push('1');
    for _ in 0..200 {
        text.push(']');
    }
    // the parser itself gives up past its own recursion bound
    assert!(get_json_info(text).is_err());
}

#[test]
fn analyzer_refuses_a_tree_past_the_nesting_bound() {
    let mut v = JsonValue::Number(String::from("1"));
    for _ in 0..200 {
        v = JsonValue::Array(vec![v]);
    }
    assert!(!tbox::analyze::check_depth(&v, 128));
    assert!(tbox::analyze::analyze_json_value(&v, 0).is_none());

    let mut w = JsonValue::Boolean(true);
    for _ in 0..100 {
        w = JsonValue::Array(vec![w]);
    }
    assert!(tbox::analyze::check_depth(&w, 128));
    let (depth, key_count, _) = tbox::analyze::analyze_json_value(&w, 0).unwrap();
    assert_eq!(depth, 100);
    assert_eq!(key_count, 0);
}

#[test]
fn empty_containers_have_no_leaf_paths() {
    let d = compare_json(String::from("{}"), String::from("{}")).unwrap();
    assert!(d.added.is_empty() && d.removed.is_empty());
    assert!(d.modified.is_empty() && d.unchanged.is_empty());
    let d2 = compare_json(String::from("[]"), String::from("[]")).unwrap();
    assert!(d2.added.is_empty() && d2.removed.is_empty());
    assert!(d2.modified.is_empty() && d2.unchanged.is_empty());
}

#[test]
fn object_keys_walk_in_sorted_order() {
    let d = compare_json(
        String::from("{\"b\":1,\"a\":2,\"c\":3}"),
        String::from("{}"),
    ).unwrap();
    assert_eq!(d.removed, vec![
        String::from("$/a"),
        String::from("$/b"),
        String::from("$/c"),
    ]);
}
