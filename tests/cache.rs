use std::sync::mpsc;
use std::time::{Duration, Instant};

use tmix::cache::MAX_UPDATE_RECORDS;
use tmix::{publish, ChannelClosedError, CrossThreadCache, SinkInputInformation};

fn record(index: u32, volume: u32) -> SinkInputInformation {
    SinkInputInformation::new(index, 0, None, vec![volume])
}

#[test]
fn later_record_for_same_index_wins_within_one_update() {
    let (tx, rx) = mpsc::channel();
    let mut cache = CrossThreadCache::new(rx, 5);
    tx.send(record(7, 6554)).unwrap();
    tx.send(record(7, 58982)).unwrap();
    assert_eq!(cache.update(), 2);
    assert_eq!(cache.get(7).unwrap().volume, vec![58982]);
    assert_eq!(cache.len(), 1);
}

#[test]
fn update_on_empty_channel_returns_within_bound() {
    let (_tx, rx) = mpsc::channel::<SinkInputInformation>();
    let mut cache = CrossThreadCache::new(rx, 20);
    let start = Instant::now();
    assert_eq!(cache.update(), 0);
    assert!(start.elapsed() < Duration::from_millis(1000));
    assert_eq!(cache.len(), 0);
    assert_eq!(cache.wait_ms(), 20);
}

#[test]
fn entries_survive_updates_without_data() {
    let (tx, rx) = mpsc::channel();
    let mut cache = CrossThreadCache::new(rx, 1);
    tx.send(record(3, 100)).unwrap();
    cache.update();
    assert_eq!(cache.update(), 0);
    assert_eq!(cache.get(3).unwrap().volume, vec![100]);
    drop(tx);
    assert_eq!(cache.update(), 0);
    assert_eq!(cache.get(3).unwrap().volume, vec![100]);
}

#[test]
fn values_hold_each_stream_once() {
    let (tx, rx) = mpsc::channel();
    let mut cache = CrossThreadCache::new(rx, 1);
    for (i, v) in [(1, 10), (2, 20), (1, 11), (3, 30)] {
        tx.send(record(i, v)).unwrap();
    }
    cache.update();
    let got: Vec<(u32, u32)> = cache.values().iter().map(|r| (r.index, r.volume[0])).collect();
    assert_eq!(got, vec![(1, 11), (2, 20), (3, 30)]);
    assert!(cache.get(4).is_none());
}

#[test]
fn one_update_takes_at_most_the_limit() {
    let (tx, rx) = mpsc::channel();
    let mut cache = CrossThreadCache::new(rx, 1);
    for i in 0..(MAX_UPDATE_RECORDS as u32 + 5) {
        tx.send(record(i, i)).unwrap();
    }
    assert_eq!(cache.update(), MAX_UPDATE_RECORDS);
    assert_eq!(cache.update(), 5);
    assert_eq!(cache.len(), MAX_UPDATE_RECORDS + 5);
}

#[test]
fn absorb_writes_in_order() {
    let (_tx, rx) = mpsc::channel();
    let mut cache = CrossThreadCache::new(rx, 1);
    cache.absorb(vec![record(1, 1), record(2, 2), record(1, 3)]);
    assert_eq!(cache.get(1).unwrap().volume, vec![3]);
    assert_eq!(cache.get(2).unwrap().volume, vec![2]);
}

#[test]
fn publish_sends_every_record() {
    let (tx, rx) = mpsc::channel();
    assert_eq!(publish(&tx, vec![record(1, 1), record(2, 2)]), Ok(2));
    assert_eq!(rx.try_recv().unwrap().index, 1);
    assert_eq!(rx.try_recv().unwrap().index, 2);
}

#[test]
fn publish_to_closed_channel_reports_error() {
    let (tx, rx) = mpsc::channel();
    drop(rx);
    assert_eq!(publish(&tx, vec![record(1, 1)]), Err(ChannelClosedError { sent: 0 }));
    assert_eq!(publish(&tx, vec![]), Ok(0));
}
