use tbox::files::{FileInfo, sort_file_infos};
use tbox::pdf::{plan_merge, plan_split};
use tbox::pages::{App, WindowCategory, window_title, initial_window_title};
use tbox::query::{json_to_query, json2query_output};
use tbox::value::JsonValue;
use tbox::game::Direction;

fn entry(name: &str, is_file: bool) -> FileInfo {
    FileInfo {
        name: String::from(name),
        path: format!("/tmp/{}", name),
        size: if is_file { 10 } else { 0 },
        is_file,
        modified: None,
    }
}

#[test]
fn listing_sorts_directories_first_then_names() {
    let files = vec![
        entry("b.txt", true),
        entry("zdir", false),
        entry("a.txt", true),
        entry("adir", false),
    ];
    let sorted = sort_file_infos(files);
    let names: Vec<&str> = sorted.iter().map(|f| f.name.as_str()).collect();
    assert_eq!(names, vec!["adir", "zdir", "a.txt", "b.txt"]);
}

#[test]
fn listing_sort_keeps_every_entry() {
    let files = vec![entry("x", true), entry("x", true), entry("y", false)];
    let sorted = sort_file_infos(files);
    assert_eq!(sorted.len(), 3);
    assert!(!sorted[0].is_file);
}

#[test]
fn merge_plan_sums_pages() {
    let counts = vec![3usize, 4, 5];
    let m = plan_merge(&counts, String::from("/tmp/out.pdf")).unwrap();
    assert_eq!(m.page_count, 12);
    assert_eq!(m.output_path, "/tmp/out.pdf");
}

#[test]
fn merge_plan_needs_at_least_one_document() {
    let counts: Vec<usize> = Vec::new();
    match plan_merge(&counts, String::from("o.pdf")) {
        Err(e) => assert_eq!(e, "至少需要一个PDF文件"),
        Ok(_) => panic!("an empty merge must be refused"),
    }
}

#[test]
fn split_plan_names_each_chunk() {
    let s = plan_split("/docs", "report", 25, Some(10)).unwrap();
    assert_eq!(s.output_files, vec![
        String::from("/docs/report_pages_1_to_10.pdf"),
        String::from("/docs/report_pages_11_to_20.pdf"),
        String::from("/docs/report_pages_21_to_25.pdf"),
    ]);
}

#[test]
fn split_plan_defaults_to_ten_pages() {
    let s = plan_split("/d", "x", 10, None).unwrap();
    assert_eq!(s.output_files, vec![String::from("/d/x_pages_1_to_10.pdf")]);
}

#[test]
fn split_plan_refuses_an_empty_document() {
    match plan_split("/d", "x", 0, None) {
        Err(e) => assert_eq!(e, "PDF文件没有页面"),
        Ok(_) => panic!("an empty document must be refused"),
    }
}

#[test]
fn window_titles_by_category() {
    assert_eq!(window_title(&WindowCategory::Homepage), "主页");
    assert_eq!(window_title(&WindowCategory::ToolsTime), "时间工具");
    assert_eq!(window_title(&WindowCategory::ToolsJson2Csv), "Json转Csv");
    assert_eq!(window_title(&WindowCategory::ToolsJson2Query), "Json转Query");
    assert_eq!(initial_window_title(3), "Window_3");
    assert_eq!(initial_window_title(0), "Window_0");
}

#[test]
fn shell_reports_the_current_page_title() {
    let mut app = App::new();
    assert_eq!(app.get_current_page_title(), "首页");
    assert_eq!(app.text, "操作：");
    assert_eq!(app.info, "结果：");
    assert_eq!(app.current_map.len(), 10);
    assert_eq!(app.current_map[3][3], 3);
    assert_eq!(app.current_map[2][4], 4);
    assert_eq!(app.current_map[6][5], 5);
}

#[test]
fn query_takes_scalars_and_drops_the_rest() {
    let json = JsonValue::Object(vec![
        (String::from("a"), JsonValue::Text(String::from("b"))),
        (String::from("n"), JsonValue::Number(String::from("5"))),
        (String::from("flag"), JsonValue::Boolean(true)),
        (String::from("obj"), JsonValue::Object(vec![])),
    ]);
    assert_eq!(json_to_query(&json), "a=b&n=5&flag=true");
}

#[test]
fn query_of_non_object_is_empty() {
    assert_eq!(json_to_query(&JsonValue::Number(String::from("7"))), "");
}

#[test]
fn query_output_from_text() {
    assert_eq!(
        json2query_output("{\"city\":\"hz\",\"code\":330100}"),
        "city=hz&code=330100"
    );
    assert_eq!(json2query_output("{nope"), "Invalid JSON input");
}

#[test]
fn push_box_round_can_be_won() {
    let mut app = App::new();
    let moves = [
        Direction::Up,
        Direction::Up,
        Direction::Right,
        Direction::Down,
        Direction::Down,
        Direction::Down,
        Direction::Down,
        Direction::Left,
        Direction::Down,
        Direction::Right,
    ];
    for m in moves.iter() {
        app.apply_direction(m);
    }
    assert_eq!(app.text, "操作：上上右下下下下左下右");
    assert_eq!(app.info, "结果：过关！");
    assert_eq!(app.current_map[6][5], 4);
}

#[test]
fn push_into_a_wall_changes_nothing() {
    let mut app = App::new();
    let before = app.current_map.clone();
    // the cell left of the player's start holds floor, two cells left a wall
    app.apply_direction(&Direction::Left);
    app.apply_direction(&Direction::Left);
    assert_eq!(app.current_map[3][2], 3);
    assert_eq!(app.current_map[3][1], 1);
    assert_ne!(app.current_map, before);
    assert_eq!(app.info, "结果：");
}
