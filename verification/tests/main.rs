use exn::anyhow_interop::{cause_messages, from_chain};
use exn::{from_anyhow, into_anyhow, AnyhowError, Exn, Frame, Location};

fn at(line: u32) -> Location {
    Location::new("src/main.rs".to_string(), line, 1)
}

fn strings(items: &[&str]) -> Vec<String> {
    items.iter().map(|s| s.to_string()).collect()
}

fn leaf(message: &'static str, line: u32) -> Exn<&'static str> {
    Exn::new(message, message.to_string(), Vec::new(), at(line))
}

fn raised(exn: Exn<&'static str>, message: &'static str, line: u32) -> Exn<&'static str> {
    exn.raise(message, message.to_string(), Vec::new(), at(line))
}

fn new_linear_error() -> Exn<&'static str> {
    let e = leaf("Error 1", 1);
    let e = raised(e, "Error 2", 2);
    raised(e, "Error 3", 3)
}

fn new_tree_error() -> Exn<&'static str> {
    let a = raised(leaf("Error 1", 1), "Error 2", 2);
    let b = leaf("Error 3", 3);
    Exn::raise_all("Error 4", "Error 4".to_string(), Vec::new(), at(4), vec![a, b])
}

fn messages(frames: &[Frame]) -> Vec<String> {
    frames.iter().map(|f| f.error().to_string()).collect()
}

#[test]
fn linear_error() {
    let e = raised(new_linear_error(), "topmost", 9);
    assert_eq!(*e, "topmost");
    assert_eq!(
        e.to_debug_string(),
        "topmost, at src/main.rs:9:1\n\
         |-- Error 3, at src/main.rs:3:1\n\
         |-- Error 2, at src/main.rs:2:1\n\
         `-- Error 1, at src/main.rs:1:1"
    );
}

#[test]
fn tree_error() {
    let e = raised(new_tree_error(), "topmost", 9);
    assert_eq!(*e, "topmost");
    assert_eq!(
        e.to_debug_string(),
        "topmost, at src/main.rs:9:1\n\
         `-- Error 4, at src/main.rs:4:1\n    \
             |-- Error 2, at src/main.rs:2:1\n    \
             |   `-- Error 1, at src/main.rs:1:1\n    \
             `-- Error 3, at src/main.rs:3:1"
    );
}

#[test]
fn new_with_source() {
    let e = Exn::new("top", "top".to_string(), strings(&["source"]), at(7));
    assert_eq!(
        e.to_debug_string(),
        "top, at src/main.rs:7:1\n`-- source, at src/main.rs:7:1"
    );
}

#[test]
fn new_walks_the_whole_source_chain() {
    let e = Exn::new(1u8, "a".to_string(), strings(&["b", "c", "d"]), at(5));
    let f = e.frame();
    assert_eq!(f.error(), "a");
    assert_eq!(cause_messages(f), strings(&["a", "b", "c", "d"]));
    let b = &f.children()[0];
    assert_eq!(f.children().len(), 1);
    assert_eq!(b.children().len(), 1);
    assert_eq!(b.location().line(), 5);
    assert_eq!(b.location().file(), "src/main.rs");
    let d = &b.children()[0].children()[0];
    assert!(d.children().is_empty());
    assert_eq!(e.into_error(), 1u8);
}

#[test]
fn new_without_sources_is_a_leaf() {
    let e = leaf("alone", 3);
    assert!(e.frame().children().is_empty());
    assert!(e.frame().source().is_none());
    assert_eq!(e.to_debug_string(), "alone, at src/main.rs:3:1");
}

#[test]
fn raise_puts_old_tree_last() {
    let inner = Exn::new("inner", "inner".to_string(), strings(&["cause"]), at(1));
    let outer = inner.raise(42u32, "outer".to_string(), strings(&["why"]), at(2));
    assert_eq!(*outer, 42u32);
    let f = outer.frame();
    assert_eq!(messages(f.children()), strings(&["why", "inner"]));
    assert_eq!(f.children()[1].children()[0].error(), "cause");
    assert_eq!(f.source().unwrap().error(), "why");
}

#[test]
fn raise_all_keeps_order() {
    let children = vec![leaf("one", 1), leaf("two", 2), leaf("three", 3)];
    let e = Exn::raise_all(0i32, "all".to_string(), strings(&["src"]), at(4), children);
    assert_eq!(e.into_error(), 0);
    let e = Exn::raise_all(0i32, "all".to_string(), strings(&["src"]), at(4), vec![leaf("one", 1), leaf("two", 2)]);
    assert_eq!(messages(e.frame().children()), strings(&["src", "one", "two"]));
    let empty: Vec<Exn<&'static str>> = Vec::new();
    let e = Exn::raise_all("x", "x".to_string(), Vec::new(), at(4), empty);
    assert!(e.frame().children().is_empty());
}

#[test]
fn nested_rendering_uses_prefixes() {
    // a chain below a node with two children is not drawn flat
    let chain = raised(raised(leaf("c1", 1), "c2", 2), "c3", 3);
    let e = Exn::raise_all("root", "root".to_string(), Vec::new(), at(5), vec![chain, leaf("last", 4)]);
    assert_eq!(
        e.to_debug_string(),
        "root, at src/main.rs:5:1\n\
         |-- c3, at src/main.rs:3:1\n\
         |   `-- c2, at src/main.rs:2:1\n\
         |       `-- c1, at src/main.rs:1:1\n\
         `-- last, at src/main.rs:4:1"
    );
}

#[test]
fn location_numbers_in_decimal() {
    let e = Exn::new((), "m".to_string(), Vec::new(), Location::new("lib.rs".to_string(), 1234567890, 0));
    assert_eq!(e.to_debug_string(), "m, at lib.rs:1234567890:0");
    let e = Exn::new((), "m".to_string(), Vec::new(), Location::new("x".to_string(), u32::MAX, 10));
    assert_eq!(e.frame().to_debug_string(), "m, at x:4294967295:10");
}

#[test]
fn from_chain_builds_linear_exception() {
    let e = from_chain(strings(&["top", "middle", "leaf"]), at(2), at(8));
    assert_eq!(e.to_string(), "top");
    assert_eq!(cause_messages(e.frame()), strings(&["top", "middle", "leaf"]));
    assert_eq!(
        e.to_debug_string(),
        "top, at src/main.rs:8:1\n\
         |-- middle, at src/main.rs:8:1\n\
         `-- leaf, at src/main.rs:2:1"
    );
    let single = from_chain(strings(&["only"]), at(2), at(8));
    assert_eq!(single.frame().location().line(), 2);
    assert_eq!(single.into_error(), AnyhowError::new("only".to_string()));
}

#[test]
fn from_anyhow_preserves_chain() {
    let err = anyhow::Error::msg("PORT must be a number")
        .context("failed to load config")
        .context("failed to start");
    let e = from_anyhow(err, at(1), at(3));
    assert_eq!(e.frame().location().line(), 3);
    assert_eq!(e.frame().children()[0].children()[0].location().line(), 1);
    assert_eq!(e.to_string(), "failed to start");
    assert_eq!(
        cause_messages(e.frame()),
        strings(&["failed to start", "failed to load config", "PORT must be a number"])
    );
}

#[test]
fn into_anyhow_follows_first_children() {
    let e = raised(new_tree_error(), "topmost", 9);
    let err = into_anyhow(e);
    let chain: Vec<String> = err.chain().map(|c| c.to_string()).collect();
    assert_eq!(chain, strings(&["topmost", "Error 4", "Error 2", "Error 1"]));
    assert_eq!(err.to_string(), "topmost");
}

#[test]
fn anyhow_round_trip() {
    let e = raised(new_linear_error(), "topmost", 9);
    let before = cause_messages(e.frame());
    let back = from_anyhow(into_anyhow(e), at(1), at(2));
    assert_eq!(cause_messages(back.frame()), before);
}

#[test]
fn anyhow_error_displays_its_message() {
    let e = AnyhowError::new("boom".to_string());
    assert_eq!(e.to_string(), "boom");
}

#[test]
fn chain_with_sources_renders_flat() {
    let e = Exn::new("top", "top".to_string(), strings(&["s1", "s2"]), at(6));
    let e = e.raise("over", "over".to_string(), Vec::new(), at(7));
    assert_eq!(
        e.to_debug_string(),
        "over, at src/main.rs:7:1\n\
         |-- top, at src/main.rs:6:1\n\
         |-- s1, at src/main.rs:6:1\n\
         `-- s2, at src/main.rs:6:1"
    );
}

#[test]
fn render_lines_follow_preorder() {
    // root -> [a -> [a1, a2 -> [a21]], b]
    let a2 = raised(leaf("a21", 1), "a2", 2);
    let a = Exn::raise_all("a", "a".to_string(), Vec::new(), at(3), vec![leaf("a1", 4), a2]);
    let e = Exn::raise_all("root", "root".to_string(), Vec::new(), at(5), vec![a, leaf("b", 6)]);
    assert_eq!(
        e.to_debug_string(),
        "root, at src/main.rs:5:1\n\
         |-- a, at src/main.rs:3:1\n\
         |   |-- a1, at src/main.rs:4:1\n\
         |   `-- a2, at src/main.rs:2:1\n\
         |       `-- a21, at src/main.rs:1:1\n\
         `-- b, at src/main.rs:6:1"
    );
}
