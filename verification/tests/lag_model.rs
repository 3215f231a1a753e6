use kafui::config::Config;
use kafui::control::{action_for, is_quit, next_topic_index, previous_topic_index, Action, Context,
    Key};
use kafui::lag::compute;
use kafui::model::{Event, GroupInfo, GroupMember, MemberAssignment, OffsetAndMetadata,
    OffsetValue, TopicDetail};
use kafui::store::OffsetStore;

fn group_on(name: &str, topic: &str, partitions: Vec<i32>) -> GroupInfo {
    GroupInfo {
        name: String::from(name),
        state: String::from("Stable"),
        members: vec![GroupMember {
            id: String::from("member-1"),
            client_id: String::from("client-1"),
            client_host: String::from("/10.0.0.1"),
            assignments: vec![MemberAssignment { topic: String::from(topic), partitions }],
        }],
    }
}

fn offset_key(group: &str, topic: &str, partition: i32) -> OffsetAndMetadata {
    OffsetAndMetadata::OffsetKey {
        group: String::from(group),
        topic: String::from(topic),
        partition,
    }
}

fn one_partition_topic(name: &str, low: i64, high: i64) -> TopicDetail {
    TopicDetail::from_watermarks(String::from(name), &vec![(0, 1, low, high)]).unwrap()
}

#[test]
fn stored_commit_gives_partition_and_aggregate_lag() {
    let td = one_partition_topic("t", 0, 10);
    let groups = vec![group_on("g1", "t", vec![0])];
    let mut store = OffsetStore::new();
    store.insert(offset_key("g1", "t", 0), OffsetValue { offset: 5 });
    let lags = compute(&td, &groups, &store.snapshot()).unwrap();
    assert_eq!(lags.len(), 1);
    assert_eq!(lags[0].group_name, "g1");
    assert_eq!(lags[0].partitions.len(), 1);
    assert_eq!(lags[0].partitions[0].committed, 5);
    assert_eq!(lags[0].partitions[0].lag, 5);
    assert_eq!(lags[0].total, 5);
}

#[test]
fn absent_commit_counts_as_offset_zero() {
    let td = one_partition_topic("t", 0, 10);
    let groups = vec![group_on("g1", "t", vec![0])];
    let store = OffsetStore::new();
    let lags = compute(&td, &groups, &store).unwrap();
    assert_eq!(lags.len(), 1);
    assert_eq!(lags[0].partitions[0].committed, 0);
    assert_eq!(lags[0].partitions[0].lag, 10);
    assert_eq!(lags[0].total, 10);
}

#[test]
fn negative_lag_is_preserved_not_clamped() {
    let td = one_partition_topic("t", 0, 10);
    let groups = vec![group_on("g1", "t", vec![0])];
    let mut store = OffsetStore::new();
    // A committed offset beyond the high watermark, e.g. off a stale read.
    store.insert(offset_key("g1", "t", 0), OffsetValue { offset: 12 });
    let lags = compute(&td, &groups, &store).unwrap();
    assert_eq!(lags[0].partitions[0].lag, -2);
    assert_eq!(lags[0].total, -2);
}

#[test]
fn groups_not_consuming_the_topic_are_left_out() {
    let td = one_partition_topic("t", 0, 4);
    let groups = vec![
        group_on("g-other", "other-topic", vec![0]),
        group_on("g-here", "t", vec![0]),
    ];
    let store = OffsetStore::new();
    let lags = compute(&td, &groups, &store).unwrap();
    assert_eq!(lags.len(), 1);
    assert_eq!(lags[0].group_name, "g-here");
}

#[test]
fn aggregate_lag_sums_all_partitions() {
    let td = TopicDetail::from_watermarks(
        String::from("t"),
        &vec![(0, 1, 0, 10), (1, 1, 0, 20)],
    )
    .unwrap();
    let groups = vec![group_on("g1", "t", vec![0, 1])];
    let mut store = OffsetStore::new();
    store.insert(offset_key("g1", "t", 0), OffsetValue { offset: 4 });
    store.insert(offset_key("g1", "t", 1), OffsetValue { offset: 15 });
    let lags = compute(&td, &groups, &store).unwrap();
    assert_eq!(lags[0].partitions.len(), 2);
    assert_eq!(lags[0].partitions[0].lag, 6);
    assert_eq!(lags[0].partitions[1].lag, 5);
    assert_eq!(lags[0].total, 11);
}

#[test]
fn lag_overflow_yields_none() {
    let td = one_partition_topic("t", 0, i64::MAX);
    let groups = vec![group_on("g1", "t", vec![0])];
    let mut store = OffsetStore::new();
    store.insert(offset_key("g1", "t", 0), OffsetValue { offset: i64::MIN });
    assert!(compute(&td, &groups, &store).is_none());
}

#[test]
fn topic_detail_derives_counts_and_total() {
    let td = TopicDetail::from_watermarks(
        String::from("orders"),
        &vec![(0, 3, 2, 12), (1, 4, 0, 7)],
    )
    .unwrap();
    assert_eq!(td.info.name, "orders");
    assert_eq!(td.info.nb_partitions, 2);
    assert_eq!(td.offsets.len(), 2);
    assert_eq!(td.offsets[0].count, 10);
    assert_eq!(td.offsets[0].leader, 3);
    assert_eq!(td.offsets[1].count, 7);
    assert_eq!(td.message_count, 17);
}

#[test]
fn topic_detail_sentinel_watermarks_give_zero_count() {
    // The watermark pair a timed-out fetch falls back to.
    let td = TopicDetail::from_watermarks(String::from("t"), &vec![(0, 1, -1, -1)]).unwrap();
    assert_eq!(td.offsets[0].count, 0);
    assert_eq!(td.message_count, 0);
}

#[test]
fn topic_detail_count_overflow_yields_none() {
    let r = TopicDetail::from_watermarks(String::from("t"), &vec![(0, 1, i64::MIN, i64::MAX)]);
    assert!(r.is_none());
}

#[test]
fn group_consumes_topic_through_any_member_assignment() {
    let g = group_on("g", "t", vec![0]);
    assert!(g.consume_topic("t"));
    assert!(!g.consume_topic("other"));
    assert!(!g.consume_topic(""));
    let empty = GroupInfo {
        name: String::from("empty"),
        state: String::from("Empty"),
        members: vec![],
    };
    assert!(!empty.consume_topic("t"));
}

#[test]
fn member_consumes_topic_by_assignment_name() {
    let m = GroupMember {
        id: String::from("m"),
        client_id: String::from("c"),
        client_host: String::from("h"),
        assignments: vec![
            MemberAssignment { topic: String::from("a"), partitions: vec![] },
            MemberAssignment { topic: String::from("b"), partitions: vec![1] },
        ],
    };
    assert!(m.consume_topic("b"));
    assert!(!m.consume_topic("c"));
}

#[test]
fn topic_list_keys_drive_selection() {
    let ctx = Context::TopicListPage;
    assert_eq!(action_for(&ctx, &Event::Input(Key::Up)), Action::SelectPrevious);
    assert_eq!(action_for(&ctx, &Event::Input(Key::Down)), Action::SelectNext);
    assert_eq!(action_for(&ctx, &Event::Input(Key::Enter)), Action::SelectCurrent);
    assert_eq!(action_for(&ctx, &Event::Input(Key::Char('s'))), Action::SetMessage);
    assert_eq!(action_for(&ctx, &Event::Input(Key::Char('x'))), Action::Ignore);
    assert_eq!(action_for(&ctx, &Event::Tick), Action::ExtendMessage);
}

#[test]
fn topic_detail_keys_leave_or_reload() {
    let ctx = Context::TopicDetailPage;
    assert_eq!(action_for(&ctx, &Event::Input(Key::Esc)), Action::ShowTopicList);
    assert_eq!(action_for(&ctx, &Event::Input(Key::Char('o'))), Action::Ignore);
    assert_eq!(action_for(&ctx, &Event::Tick), Action::ReloadTopicDetail);
}

#[test]
fn quit_key_is_only_q() {
    assert!(is_quit(&Key::Char('q')));
    assert!(!is_quit(&Key::Char('s')));
    assert!(!is_quit(&Key::Esc));
}

#[test]
fn topic_selection_wraps_around() {
    assert_eq!(next_topic_index(None, 3), 0);
    assert_eq!(next_topic_index(Some(0), 3), 1);
    assert_eq!(next_topic_index(Some(2), 3), 0);
    assert_eq!(previous_topic_index(None, 3), 0);
    assert_eq!(previous_topic_index(Some(0), 3), 2);
    assert_eq!(previous_topic_index(Some(2), 3), 1);
}

#[test]
fn brokers_argument_wins_over_config_file() {
    let c = Config::resolve(Some(String::from("arg:9092")), Some(String::from("file:9092")));
    assert_eq!(c.unwrap().brokers, "arg:9092");
    let c = Config::resolve(None, Some(String::from("file:9092")));
    assert_eq!(c.unwrap().brokers, "file:9092");
    assert!(Config::resolve(None, None).is_none());
}
