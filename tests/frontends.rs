use binfinder::binaries::{search_binaries, Registry};
use binfinder::cli::{AppModeArg, Cli};
use binfinder::simple_app::SimpleApp;
use binfinder::descriptions::Description;
use binfinder::states::BinaryListState;
use binfinder::widgets::{SearchResultItem, SearchResultItemOrder};

fn cli(show: bool, length: usize) -> Cli {
    Cli {
        app_mode: AppModeArg { simple: true, interactive: true },
        should_copy_result: false,
        show_descriptions: show,
        result_length: length,
        search_path: None,
        input: Some("ls".to_string()),
    }
}

fn registry(names: &[&str]) -> Registry {
    Registry::build(&names.iter().map(|s| s.to_string()).collect())
}

#[test]
fn render_line_plain_name() {
    let app = SimpleApp::with_args(cli(false, 10));
    assert_eq!(app.render_line(&"ls".to_string(), None), "ls\n");
}

#[test]
fn render_line_with_and_without_description() {
    let app = SimpleApp::with_args(cli(true, 10));
    assert_eq!(app.render_line(&"ls".to_string(), Some(&"Lists.".to_string())), "ls:\nLists.\n");
    assert_eq!(app.render_line(&"ls".to_string(), None), "ls,\n");
}

#[test]
fn shown_takes_the_best_entries() {
    let reg = registry(&["ls", "lsblk", "cat", "grep"]);
    let result = search_binaries(&reg, "ls");
    let app = SimpleApp::with_args(cli(false, 2));
    let shown = app.shown(&result);
    assert_eq!(shown.len(), 2.min(result.len()));
    assert_eq!(reg.get(shown[0]).name, "ls");
    let all = SimpleApp::with_args(cli(false, 100)).shown(&result);
    assert_eq!(all, result.ordered_iter());
}

#[test]
fn empty_query_has_no_list() {
    let reg = registry(&["ls"]);
    assert!(BinaryListState::search(&reg, "").is_none());
    let s = BinaryListState::search(&reg, "l").unwrap();
    assert_eq!(s.selected, 0);
    assert_eq!(s.binaries.len(), 1);
}

#[test]
fn descriptions_need_man_and_groff() {
    let both = registry(&["man", "groff", "ls"]);
    let no_groff = registry(&["man", "ls"]);
    assert!(cli(true, 10).descriptions_enabled(&both));
    assert!(!cli(true, 10).descriptions_enabled(&no_groff));
    assert!(!cli(false, 10).descriptions_enabled(&both));
}

#[test]
fn item_height_without_description() {
    let item = SearchResultItem { name: "ls".to_string(), description: None };
    assert_eq!(item.calculate_height(10), 2);
}

#[test]
fn item_height_counts_wrapped_lines() {
    let d = Description { value: "abcdefghij\nxy".to_string() };
    let item = SearchResultItem { name: "ls".to_string(), description: Some(d) };
    assert_eq!(item.calculate_height(5), 7);
    assert_eq!(item.calculate_height(80), 5);
    let joined = SearchResultItem { name: "ls".to_string(), description: Some(Description::new("abcdefghij\nxy".to_string())) };
    assert_eq!(joined.calculate_height(5), 6);
}

#[test]
fn item_orders_compare() {
    assert!(SearchResultItemOrder::Selected != SearchResultItemOrder::Last);
    assert!(SearchResultItemOrder::Rest == SearchResultItemOrder::Rest);
}
