use badlogvis::attribute::Attribute;
use badlogvis::diag::Error;
use badlogvis::folder::Folder;
use badlogvis::graph::Graph;
use badlogvis::input::Topic;
use badlogvis::util::split_name;
use badlogvis::xaxis::XAxis;

fn topic(name: &str, unit: &str, attrs: Vec<Attribute>, data: Vec<i64>) -> Topic {
    let (folder, base) = split_name(name);
    Topic {
        name: name.to_string(),
        name_base: base,
        name_folder: folder,
        unit: unit.to_string(),
        attrs,
        data,
    }
}

#[test]
fn synthetic_axis_without_directive() {
    let topics = vec![topic("a", "ul", vec![], vec![1, 2])];
    let axis = XAxis::from_topics(&topics).unwrap();
    assert_eq!(axis.name, "Index");
    assert_eq!(axis.unit, "ul");
    assert!(axis.data.is_none());
}

#[test]
fn explicit_axis_takes_channel_samples() {
    let topics = vec![
        topic("a", "v", vec![], vec![1, 2]),
        topic("pos/t", "s", vec![Attribute::Xaxis], vec![10, 20]),
    ];
    let axis = XAxis::from_topics(&topics).unwrap();
    assert_eq!(axis.name, "t (s)");
    assert_eq!(axis.unit, "s");
    assert_eq!(axis.data, Some(vec![10, 20]));
}

#[test]
fn two_axis_channels_are_fatal() {
    let topics = vec![
        topic("a", "s", vec![Attribute::Xaxis], vec![1]),
        topic("b", "s", vec![Attribute::Xaxis], vec![2]),
    ];
    match XAxis::from_topics(&topics) {
        Err(e) => assert_eq!(e, Error::MultipleXaxis),
        Ok(_) => panic!("expected a fatal error"),
    }
    match Graph::gen_graphs(&topics) {
        Err(e) => assert_eq!(e, Error::MultipleXaxis),
        Ok(_) => panic!("expected a fatal error"),
    }
}

#[test]
fn two_channels_without_axis() {
    // Two channels, one marked as an area chart, three rows, no explicit
    // axis: one synthetic index axis and two direct graphs.
    let topics = vec![
        topic("a", "ul", vec![], vec![1, 2, 3]),
        topic("a/b", "ul", vec![Attribute::Area], vec![4, 5, 6]),
    ];
    let (graphs, axis, warns) = Graph::gen_graphs(&topics).unwrap();
    assert_eq!(axis.name, "Index");
    assert!(axis.data.is_none());
    assert_eq!(graphs.len(), 2);
    assert_eq!(graphs[0].name, "a");
    assert!(!graphs[0].area);
    assert_eq!(graphs[0].series.len(), 1);
    assert_eq!(graphs[0].series[0].data, vec![(0, 1), (1, 2), (2, 3)]);
    assert_eq!(graphs[1].name, "a/b");
    assert!(graphs[1].area);
    assert!(warns.is_empty());

    let folders = Folder::gen_folders(graphs, Vec::new(), Vec::new());
    assert_eq!(folders.len(), 2);
    assert_eq!(folders[0].name, "");
    assert_eq!(folders[1].name, "a");
    assert_eq!(folders[0].graphs.len(), 1);
    assert_eq!(folders[1].graphs.len(), 1);
    assert_eq!(folders[1].graphs[0].name, "a/b");
}

#[test]
fn join_directives_build_one_combined_graph() {
    let topics = vec![
        topic("t", "s", vec![Attribute::Join("combo".to_string())], vec![1, 2]),
        topic("u", "s", vec![Attribute::Join("combo".to_string())], vec![3, 4]),
    ];
    let (graphs, _, warns) = Graph::gen_graphs(&topics).unwrap();
    let combos: Vec<&Graph> = graphs.iter().filter(|g| g.name == "combo").collect();
    assert_eq!(combos.len(), 1);
    let combo = combos[0];
    assert!(combo.joinable);
    assert!(combo.virt);
    assert_eq!(combo.unit, "s");
    assert_eq!(combo.series.len(), 2);
    assert_eq!(combo.series[0].name, "t");
    assert_eq!(combo.series[1].name, "u");
    assert!(warns.is_empty());
}

#[test]
fn join_into_direct_graph_is_fatal() {
    let topics = vec![
        topic("plain", "s", vec![], vec![1]),
        topic("u", "s", vec![Attribute::Join("plain".to_string())], vec![2]),
    ];
    match Graph::gen_graphs(&topics) {
        Err(e) => assert_eq!(e, Error::JoinToNonJoinable { name: "plain".to_string() }),
        Ok(_) => panic!("expected a fatal error"),
    }
}

#[test]
fn join_warnings_for_label_and_unit() {
    let topics = vec![
        topic("g/x", "s", vec![Attribute::Join("c".to_string())], vec![1]),
        topic("h/x", "v", vec![Attribute::Join("c".to_string())], vec![2]),
    ];
    let (graphs, _, warns) = Graph::gen_graphs(&topics).unwrap();
    let combo = graphs.iter().find(|g| g.name == "c").unwrap();
    assert_eq!(combo.series.len(), 2);
    // Both channels share the base name "x" and differ in unit: both are
    // warned about, and both series are kept.
    assert_eq!(warns.len(), 2);
}

#[test]
fn derivative_of_single_point_is_empty() {
    let topics = vec![topic("c", "v", vec![Attribute::Differentiate], vec![5])];
    let (graphs, _, _) = Graph::gen_graphs(&topics).unwrap();
    assert_eq!(graphs.len(), 2);
    assert_eq!(graphs[0].name, "c");
    assert_eq!(graphs[1].name, "c Derivative");
    assert!(graphs[1].virt);
    assert_eq!(graphs[1].unit, "v/ul");
    assert_eq!(graphs[1].series[0].data.len(), 0);
}

#[test]
fn hidden_channel_still_emits_derived_graphs() {
    let topics = vec![topic(
        "c",
        "v",
        vec![Attribute::Hide, Attribute::Delta, Attribute::Integrate],
        vec![0, 2, 4],
    )];
    let (graphs, _, _) = Graph::gen_graphs(&topics).unwrap();
    assert_eq!(graphs.len(), 2);
    assert_eq!(graphs[0].name, "c Delta");
    assert_eq!(graphs[0].unit, "v");
    assert_eq!(graphs[0].series[0].data, vec![(0, 2), (1, 2)]);
    assert_eq!(graphs[1].name, "c Integral");
    assert_eq!(graphs[1].unit, "v*ul");
    assert_eq!(graphs[1].series[0].data, vec![(0, 1), (1, 4)]);
}

#[test]
fn direct_series_is_one_point_per_sample() {
    let topics = vec![
        topic("time", "s", vec![Attribute::Xaxis], vec![10, 20, 30]),
        topic("a", "v", vec![], vec![7, 8, 9]),
    ];
    let (graphs, _, _) = Graph::gen_graphs(&topics).unwrap();
    for g in &graphs {
        assert_eq!(g.series[0].data.len(), 3);
    }
    assert_eq!(graphs[1].series[0].data, vec![(10, 7), (20, 8), (30, 9)]);
}

#[test]
fn axis_length_mismatch_is_fatal() {
    let topics = vec![
        topic("time", "s", vec![Attribute::Xaxis], vec![10, 20]),
        topic("a", "v", vec![], vec![7, 8, 9]),
    ];
    match Graph::gen_graphs(&topics) {
        Err(e) => assert_eq!(e, Error::LengthMismatch { axis_len: 2, data_len: 3 }),
        Ok(_) => panic!("expected a fatal error"),
    }
}

#[test]
fn join_target_lookup_takes_the_last_named_graph() {
    // Two channels sharing one name are rejected by header decoding, but
    // the engine itself keys join lookups by exact name and takes the
    // last match; with every match non-joinable, the join is fatal.
    let topics = vec![
        topic("J", "s", vec![], vec![1]),
        topic("J", "s", vec![], vec![2]),
        topic("u", "s", vec![Attribute::Join("J".to_string())], vec![3]),
    ];
    match Graph::gen_graphs(&topics) {
        Err(e) => assert_eq!(e, Error::JoinToNonJoinable { name: "J".to_string() }),
        Ok(_) => panic!("expected a fatal error"),
    }
}

#[test]
fn zero_flag_is_carried() {
    let topics = vec![topic("a", "v", vec![Attribute::Zero], vec![1])];
    let (graphs, _, _) = Graph::gen_graphs(&topics).unwrap();
    assert!(graphs[0].zero);
    assert!(!graphs[0].joinable);
    assert!(!graphs[0].virt);
}
