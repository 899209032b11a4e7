use tmix::{SinkAndInputs, SinkInformation, SinkInputInformation, VolumeInfo};

const HALF: u32 = 32768;

fn sink(index: u32, name: &str) -> SinkInformation {
    SinkInformation::new(index, Some(name.to_string()), vec![HALF, HALF])
}

fn input(index: u32, sink: u32, volume: u32) -> SinkInputInformation {
    SinkInputInformation::new(index, sink, None, vec![volume, volume])
}

fn input_indices(entry: &SinkAndInputs) -> Vec<u32> {
    entry.iter().map(|i| i.index).collect()
}

#[test]
fn dangling_input_is_dropped_from_one_sink_snapshot() {
    let sinks = vec![sink(0, "Speakers")];
    let inputs = vec![input(10, 0, 52429), input(11, 1, 26214)];
    let snap = VolumeInfo::build(sinks, inputs);
    assert_eq!(snap.len(), 1);
    let entry = snap.get(0).expect("sink 0 is present");
    assert_eq!(entry.sink().name.as_deref(), Some("Speakers"));
    assert_eq!(entry.sink().volume, vec![HALF, HALF]);
    assert_eq!(input_indices(entry), vec![10]);
    assert_eq!(entry.iter().next().unwrap().volume, vec![52429, 52429]);
    assert!(snap.get(1).is_none());
}

#[test]
fn snapshot_keys_are_the_sink_indices() {
    let sinks = vec![sink(4, "a"), sink(2, "b"), sink(9, "c")];
    let snap = VolumeInfo::build(sinks, vec![]);
    let mut keys: Vec<u32> = snap.iter().map(|e| e.sink().index).collect();
    keys.sort();
    assert_eq!(keys, vec![2, 4, 9]);
    assert_eq!(snap.len(), 3);
}

#[test]
fn sink_without_inputs_has_empty_collection() {
    let snap = VolumeInfo::build(vec![sink(3, "idle")], vec![]);
    let entry = snap.get(3).expect("sink 3 is present");
    assert_eq!(entry.iter().count(), 0);
}

#[test]
fn each_routed_input_lands_once_in_its_sink() {
    let sinks = vec![sink(0, "a"), sink(1, "b")];
    let inputs = vec![input(20, 1, 1), input(21, 0, 2), input(22, 1, 3), input(23, 5, 4)];
    let snap = VolumeInfo::build(sinks, inputs);
    assert_eq!(input_indices(snap.get(0).unwrap()), vec![21]);
    assert_eq!(input_indices(snap.get(1).unwrap()), vec![20, 22]);
    let total: usize = snap.iter().map(|e| e.iter().count()).sum();
    assert_eq!(total, 3);
    assert!(snap.iter().all(|e| e.iter().all(|i| i.index != 23)));
}

#[test]
fn later_sink_with_same_index_replaces_earlier() {
    let sinks = vec![sink(7, "old"), sink(7, "new")];
    let snap = VolumeInfo::build(sinks, vec![input(1, 7, 5)]);
    assert_eq!(snap.len(), 1);
    let entry = snap.get(7).unwrap();
    assert_eq!(entry.sink().name.as_deref(), Some("new"));
    assert_eq!(input_indices(entry), vec![1]);
}

#[test]
fn empty_lists_give_empty_snapshot() {
    let snap = VolumeInfo::build(vec![], vec![input(1, 0, 5)]);
    assert_eq!(snap.len(), 0);
    assert_eq!(snap.iter().count(), 0);
}

#[test]
fn sink_and_inputs_push_appends() {
    let mut entry = SinkAndInputs::new(sink(2, "x"), vec![input(1, 2, 0)]);
    entry.push(input(5, 2, 0));
    assert_eq!(input_indices(&entry), vec![1, 5]);
    assert_eq!(entry.sink().index, 2);
}
