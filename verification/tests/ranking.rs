use neopilot_models::ranking::{distinct_names, text_before, top_rows};

fn rows(v: &[(&str, usize)]) -> Vec<(String, usize)> {
    v.iter().map(|(k, c)| (k.to_string(), *c)).collect()
}

#[test]
fn top_rows_orders_by_count_then_name() {
    let r = rows(&[("llama", 3), ("gpt", 5), ("qwen", 3), ("gemma", 1), ("deepseek", 3)]);
    assert!(distinct_names(&r));
    assert_eq!(
        top_rows(&r, 10),
        rows(&[("gpt", 5), ("deepseek", 3), ("llama", 3), ("qwen", 3), ("gemma", 1)])
    );
    assert_eq!(top_rows(&r, 2), rows(&[("gpt", 5), ("deepseek", 3)]));
    assert_eq!(top_rows(&r, 0), rows(&[]));
    assert_eq!(top_rows(&rows(&[]), 10), rows(&[]));
}

#[test]
fn top_ten_of_many() {
    let names: Vec<String> = (0..15).map(|i| format!("f{:02}", i)).collect();
    let r: Vec<(String, usize)> = names.iter().enumerate().map(|(i, n)| (n.clone(), i % 4)).collect();
    let top = top_rows(&r, 10);
    assert_eq!(top.len(), 10);
    assert_eq!(
        top.iter().map(|(n, c)| format!("{}:{}", n, c)).collect::<Vec<_>>(),
        vec!["f03:3", "f07:3", "f11:3", "f02:2", "f06:2", "f10:2", "f14:2", "f01:1", "f05:1", "f09:1"]
    );
}

#[test]
fn distinct_name_check() {
    assert!(!distinct_names(&rows(&[("a", 1), ("b", 2), ("a", 3)])));
    assert!(distinct_names(&rows(&[("a", 1), ("b", 1)])));
}

#[test]
fn dictionary_order() {
    assert!(text_before("abc", "abd"));
    assert!(text_before("ab", "abc"));
    assert!(!text_before("abc", "ab"));
    assert!(!text_before("abc", "abc"));
    assert!(text_before("", "a"));
    assert!(!text_before("", ""));
    assert!(text_before("Zeta", "alpha"));
    assert!(text_before("z", "é"));
}
