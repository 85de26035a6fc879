use std::collections::BTreeMap;
use std::collections::HashMap;

use fixed_matrix::mat::{Tree, test_tree};
use fixed_matrix::message::{Html, Message};

#[test]
fn last_test() {
    println!("output={}", "c"); // the last of the tokens a b c
    let _zipped: [(i32, &str); 3] = [(1, "a"), (2, "b"), (3, "c")];
}

#[test]
fn test_map_macro() {
    let mut map: BTreeMap<String, String> = BTreeMap::new();
    map.insert("a".to_string(), "b".to_string());
    map.insert("c".to_string(), "d".to_string());

    assert_eq!(map.get("a"), Some(&"b".to_string()));
    assert_eq!(map.get("c"), Some(&"d".to_string()));
    let mut map: BTreeMap<&str, &str> = BTreeMap::new();
    map.insert("a", "b");
    map.insert("c", "d");
    assert_eq!(map.get("a"), Some(&"b"));
    assert_eq!(map.get("c"), Some(&"d"));
}

#[test]
fn it_works() {
    let result: usize = fixed_matrix::add(2, 2);
    assert_eq!(result, 4);
}

#[test]
fn mat_test() {
    let a: i32 = 1;
    let b: i32 = 2;
    let _max: i32 = a.max(b.max(a.max(b.max(a.max(b)))));
}

#[test]
fn message_test() {
    let _msg = Message::Plain("hello".to_string());
    let _msg = Message::Html(node("h1", Vec::new(), Vec::new()));
    let _msg = Message::Html(node("h1", vec![("width", "500")], Vec::new()));
    let button = node("button", vec![("width", "300")], Vec::new());
    let span = node("span", vec![("width", "450")], vec![button]);
    let html = node("h1", vec![("width", "500"), ("color", "black")], vec![span]);
    let _msg = Message::Html(node("h1", Vec::new(), Vec::new()));
    assert_eq!(html.tag, "h1");
    assert_eq!(html.attrs.get("width"), Some(&"500".to_string()));
    assert_eq!(html.attrs.get("color"), Some(&"black".to_string()));
    assert_eq!(html.children.len(), 1);
    let span = &html.children[0];
    assert_eq!(span.tag, "span");
    assert_eq!(span.attrs.get("width"), Some(&"450".to_string()));
    assert_eq!(span.children.len(), 1);
    let button = &span.children[0];
    assert_eq!(button.tag, "button");
    assert_eq!(button.attrs.get("width"), Some(&"300".to_string()));
    assert_eq!(button.children.len(), 0);
    let _msg = Message::Sticker { catagory: "system".to_string(), code: 12u16 };
}

fn node(tag: &str, attrs: Vec<(&str, &str)>, children: Vec<Html>) -> Html {
    let mut map: HashMap<String, String> = HashMap::new();
    for (key, value) in attrs {
        map.insert(key.to_string(), value.to_string());
    }
    Html { tag: tag.to_string(), attrs: map, children }
}

#[test]
fn tree_sample_shape() {
    let t: Tree<i32> = test_tree();
    assert_eq!(t.value, 1);
    assert_eq!(t.children.len(), 2);
    assert_eq!(t.children[0].value, 2);
    assert_eq!(t.children[0].children.len(), 2);
    assert_eq!(t.children[0].children[0].value, 3);
    assert_eq!(t.children[0].children[1].value, 4);
    assert_eq!(t.children[1].value, 5);
    assert_eq!(t.children[1].children.len(), 0);
}
