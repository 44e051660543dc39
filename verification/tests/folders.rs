use badlogvis::attached_file::{collect_attached, AttachedFile};
use badlogvis::diag::Warning;
use badlogvis::folder::Folder;
use badlogvis::graph::{Graph, Series};
use badlogvis::input::{Log, Value};
use badlogvis::util::split_name;

fn graph(name: &str) -> Graph {
    Graph::from_default(
        name.to_string(),
        "ul".to_string(),
        "Index".to_string(),
        vec![Series { name: String::new(), data: vec![(0, 1)] }],
        false,
    )
}

fn value(name: &str, text: &str) -> Value {
    let (folder, base) = split_name(name);
    Value {
        name: name.to_string(),
        name_base: base,
        name_folder: folder,
        value: text.to_string(),
    }
}

fn log(name: &str) -> Log {
    let (folder, base) = split_name(name);
    Log {
        name: name.to_string(),
        name_base: base,
        name_folder: folder,
        unit: "ul".to_string(),
        attrs: Vec::new(),
        data: Vec::new(),
        lines: Some(Vec::new()),
    }
}

#[test]
fn folder_order_is_case_insensitive() {
    // Folders "A" (from "A/y") and "b" (from "b/x") sort as A before b
    // even though 'b' < 'A' by code point.
    let folders = Folder::gen_folders(vec![graph("b/x"), graph("A/y")], Vec::new(), Vec::new());
    assert_eq!(folders.len(), 2);
    assert_eq!(folders[0].name, "A");
    assert_eq!(folders[1].name, "b");
}

#[test]
fn folder_order_ignores_input_order() {
    let one = Folder::gen_folders(vec![graph("b/x"), graph("A/y")], Vec::new(), Vec::new());
    let two = Folder::gen_folders(vec![graph("A/y"), graph("b/x")], Vec::new(), Vec::new());
    assert_eq!(one.len(), two.len());
    for (f, g) in one.iter().zip(two.iter()) {
        assert_eq!(f.name, g.name);
    }
}

#[test]
fn every_item_lands_in_its_folder() {
    let folders = Folder::gen_folders(
        vec![graph("m/a"), graph("m/b"), graph("top")],
        vec![value("m/v", "1"), value("w", "2")],
        vec![log("m/l")],
    );
    assert_eq!(folders.len(), 2);
    assert_eq!(folders[0].name, "");
    assert_eq!(folders[1].name, "m");
    assert_eq!(folders[0].graphs.len(), 1);
    assert_eq!(folders[0].graphs[0].name, "top");
    assert_eq!(folders[0].table.len(), 1);
    assert_eq!(folders[0].table[0].name, "w");
    assert_eq!(folders[0].logs.len(), 0);
    assert_eq!(folders[1].graphs.len(), 2);
    assert_eq!(folders[1].graphs[0].name, "m/a");
    assert_eq!(folders[1].graphs[1].name, "m/b");
    assert_eq!(folders[1].table.len(), 1);
    assert_eq!(folders[1].logs.len(), 1);
    assert_eq!(folders[1].logs[0].name, "m/l");

    let total: usize = folders.iter().map(|f| f.graphs.len()).sum();
    assert_eq!(total, 3);
}

#[test]
fn folder_members_share_the_folder_name() {
    let folders = Folder::gen_folders(
        vec![graph("x/a"), graph("y/b"), graph("x/c")],
        Vec::new(),
        Vec::new(),
    );
    for f in &folders {
        for g in &f.graphs {
            assert_eq!(g.name_folder, f.name);
        }
    }
}

#[test]
fn attached_duplicates_are_warned_but_kept() {
    let files = vec![
        AttachedFile { path: "a/f.txt".to_string(), name: "f.txt".to_string(), content: vec![1] },
        AttachedFile { path: "a/f.txt".to_string(), name: "f.txt".to_string(), content: vec![2] },
        AttachedFile { path: "b/f.txt".to_string(), name: "f.txt".to_string(), content: vec![3] },
        AttachedFile { path: "c/g.txt".to_string(), name: "g.txt".to_string(), content: vec![4] },
    ];
    let (kept, warns) = collect_attached(files);
    assert_eq!(kept.len(), 4);
    assert_eq!(
        warns,
        vec![
            Warning::DuplicatePath { path: "a/f.txt".to_string() },
            Warning::DuplicateFileName { name: "f.txt".to_string() },
        ]
    );
}
