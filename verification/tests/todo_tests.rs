use vulkan_todo::clock::now;
use vulkan_todo::text::sanitize;
use vulkan_todo::todos::{
    encode_save_file, encode_save_line, parse_save_file, parse_save_line, KeyInput, KeyOutcome,
    Todo, Todos,
};
use vulkan_todo::widgets::{caret_blinking, caret_on_after};

fn todo(text: &str, done: bool) -> Todo {
    Todo { text: text.into(), done }
}

fn list(items: Vec<Todo>, input: &str, focused: bool) -> Todos {
    Todos { items, input: input.into(), focused, caret_since: now() }
}

fn texts(t: &Todos) -> Vec<(String, bool)> {
    t.items.iter().map(|i| (i.text.clone(), i.done)).collect()
}

#[test]
fn main_sanitize_keeps_only_renderable_ascii() {
    assert_eq!(sanitize('a'), Some('a'));
    assert_eq!(sanitize(' '), Some(' '));
    assert_eq!(sanitize('\t'), Some(' '));
    assert_eq!(sanitize('\n'), None);
    assert_eq!(sanitize('\u{e9}'), None);
}

#[test]
fn todos_sanitize_keeps_only_renderable_ascii() {
    assert_eq!(sanitize('a'), Some('a'));
    assert_eq!(sanitize(' '), Some(' '));
    assert_eq!(sanitize('\t'), Some(' '));
    assert_eq!(sanitize('\n'), None);
    assert_eq!(sanitize('\u{e9}'), None);
}

#[test]
fn sanitize_edges() {
    assert_eq!(sanitize('!'), Some('!'));
    assert_eq!(sanitize('~'), Some('~'));
    assert_eq!(sanitize('\u{7f}'), None);
    assert_eq!(sanitize('\r'), None);
    assert_eq!(sanitize('\u{1f}'), None);
}

fn roundtrip_case() {
    let todos = list(vec![todo("buy milk", false), todo("ship release 1.0!", true)], "", false);
    let data = todos.save_data();
    let loaded = Todos::load_from(&data);
    assert_eq!(loaded.items.len(), 2);
    assert_eq!(loaded.items[0].text, "buy milk");
    assert!(!loaded.items[0].done);
    assert_eq!(loaded.items[1].text, "ship release 1.0!");
    assert!(loaded.items[1].done);
}

#[test]
fn main_save_file_roundtrip() {
    roundtrip_case();
}

#[test]
fn todos_save_file_roundtrip() {
    roundtrip_case();
}

#[test]
fn save_data_format() {
    let todos = list(vec![todo("buy milk", false), todo("ship release 1.0!", true)], "", false);
    assert_eq!(todos.save_data(), "0\tbuy milk\n1\tship release 1.0!\n");
    assert_eq!(encode_save_file(&Vec::new()), "");
    assert_eq!(encode_save_line(&todo("x y", true)), "1\tx y");
    assert_eq!(encode_save_line(&todo("a", false)), "0\ta");
}

#[test]
fn parse_line_cases() {
    assert!(parse_save_line("no tab here").is_none());
    assert!(parse_save_line("").is_none());
    assert!(parse_save_line("1\t").is_none());
    assert!(parse_save_line("1\t   \u{e9}  ").is_none());
    let t = parse_save_line("1\t  buy milk  ").unwrap();
    assert_eq!((t.text.as_str(), t.done), ("buy milk", true));
    let t = parse_save_line(" 1 \tx").unwrap();
    assert!(t.done);
    let t = parse_save_line("\u{a0}1\u{3000}\tx").unwrap();
    assert!(t.done);
    let t = parse_save_line("11\tx").unwrap();
    assert!(!t.done);
    let t = parse_save_line("x\t\tfoo\tbar").unwrap();
    assert_eq!((t.text.as_str(), t.done), ("foo bar", false));
    let t = parse_save_line("0\tcaf\u{e9} au lait\r").unwrap();
    assert_eq!(t.text, "caf au lait");
}

#[test]
fn parse_file_cases() {
    let items = parse_save_file("0\ta\r\n\nnot an item\n1\tb\n0\t  \n1\tc");
    let got: Vec<(String, bool)> = items.iter().map(|t| (t.text.clone(), t.done)).collect();
    assert_eq!(
        got,
        vec![("a".to_string(), false), ("b".to_string(), true), ("c".to_string(), true)]
    );
    assert!(parse_save_file("").is_empty());
    assert!(parse_save_file("\n\n").is_empty());
    let loaded = Todos::load_from("1\tdone thing\n");
    assert_eq!(loaded.input, "");
    assert!(!loaded.focused);
}

#[test]
fn counts() {
    let t = list(vec![todo("a", false), todo("b", true), todo("c", true)], "", false);
    assert_eq!(t.open_count(), 1);
    assert_eq!(t.done_count(), 2);
    assert_eq!(t.open_count() + t.done_count(), t.items.len());
}

#[test]
fn add_task_trims_and_clears() {
    let mut t = list(vec![todo("a", false)], "  new one ", true);
    assert!(t.can_add());
    assert!(t.add_task());
    assert_eq!(texts(&t), vec![("a".to_string(), false), ("new one".to_string(), false)]);
    assert_eq!(t.input, "");
    assert_eq!(t.open_count(), 2);
    let mut t = list(vec![], "    ", true);
    assert!(!t.can_add());
    assert!(!t.add_task());
    assert!(t.items.is_empty());
    assert_eq!(t.input, "    ");
}

#[test]
fn typing_stops_at_eighty() {
    let mut t = list(vec![], "", true);
    for _ in 0..79 {
        assert!(t.type_char('x'));
    }
    assert!(t.type_char('y'));
    assert!(!t.type_char('z'));
    assert_eq!(t.input.chars().count(), 80);
    assert!(t.input.ends_with('y'));
    assert!(t.backspace());
    assert_eq!(t.input.chars().count(), 79);
    let mut e = list(vec![], "", true);
    assert!(!e.backspace());
}

#[test]
fn keys() {
    let mut t = list(vec![], "ab", true);
    assert_eq!(t.handle_key(&KeyInput::Text("c\u{e9}\td".into()), true), KeyOutcome::Edited);
    assert_eq!(t.input, "abc d");
    assert_eq!(t.handle_key(&KeyInput::Backspace, true), KeyOutcome::Edited);
    assert_eq!(t.input, "abc ");
    assert_eq!(t.handle_key(&KeyInput::Space, true), KeyOutcome::Edited);
    assert_eq!(t.input, "abc  ");
    assert_eq!(t.handle_key(&KeyInput::Other, true), KeyOutcome::Ignored);
    assert_eq!(t.handle_key(&KeyInput::Text("x".into()), false), KeyOutcome::Ignored);
    assert_eq!(t.input, "abc  ");
    assert_eq!(t.handle_key(&KeyInput::Text("\u{e9}".into()), true), KeyOutcome::Ignored);
    assert_eq!(t.handle_key(&KeyInput::Enter, true), KeyOutcome::Added);
    assert_eq!(texts(&t), vec![("abc".to_string(), false)]);
    assert_eq!(t.input, "");
    assert_eq!(t.handle_key(&KeyInput::Enter, true), KeyOutcome::Ignored);
    assert_eq!(t.handle_key(&KeyInput::Backspace, true), KeyOutcome::Ignored);
    assert_eq!(t.handle_key(&KeyInput::Escape, true), KeyOutcome::Quit);
    assert_eq!(t.handle_key(&KeyInput::Escape, false), KeyOutcome::Ignored);
    let mut unfocused = list(vec![], "q", false);
    assert_eq!(unfocused.handle_key(&KeyInput::Enter, true), KeyOutcome::Ignored);
    assert!(unfocused.items.is_empty());
    assert_eq!(unfocused.handle_key(&KeyInput::Escape, true), KeyOutcome::Quit);
}

#[test]
fn text_key_fills_to_limit() {
    let mut t = list(vec![], &"x".repeat(78), true);
    assert_eq!(t.handle_key(&KeyInput::Text("abcd".into()), true), KeyOutcome::Edited);
    assert_eq!(t.input, format!("{}ab", "x".repeat(78)));
    assert_eq!(t.handle_key(&KeyInput::Text("e".into()), true), KeyOutcome::Ignored);
}

#[test]
fn toggle_remove_clear() {
    let mut t = list(vec![todo("a", false), todo("b", true), todo("c", false)], "", false);
    t.toggle(0);
    assert_eq!(t.done_count(), 2);
    t.toggle(0);
    assert_eq!(texts(&t), vec![
        ("a".to_string(), false),
        ("b".to_string(), true),
        ("c".to_string(), false)
    ]);
    t.toggle(2);
    t.clear_completed();
    assert_eq!(texts(&t), vec![("a".to_string(), false)]);
    assert_eq!(t.done_count(), 0);
    t.remove(0);
    assert!(t.items.is_empty());
    t.clear_completed();
    assert!(t.items.is_empty());
}

#[test]
fn focus_rule() {
    let mut t = list(vec![], "", false);
    t.settle_focus(false, true, false, false);
    assert!(t.focused);
    t.settle_focus(true, false, false, true);
    assert!(!t.focused);
    t.settle_focus(true, false, false, false);
    assert!(t.focused);
    t.settle_focus(false, false, true, true);
    assert!(t.focused);
    t.settle_focus(false, false, false, false);
    assert!(!t.focused);
}

#[test]
fn caret_phases() {
    assert!(caret_on_after(0));
    assert!(caret_on_after(449));
    assert!(!caret_on_after(450));
    assert!(!caret_on_after(899));
    assert!(caret_on_after(900));
    assert!(caret_blinking(now()));
}
