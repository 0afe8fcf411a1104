use vaffelbot::domain::{Enrollment, QueueEntry, QueueRepository};
use vaffelbot::infrastructure::MemoryQueueRepository;

#[test]
fn redis_queue_repository_test_push_and_pop() {
    let mut queue = MemoryQueueRepository::new();
    let guild = "test-push-and-pop";
    queue.clear(guild).unwrap();
    queue.open(guild);

    let foo = QueueEntry::new("foo".to_string(), "Foo User".to_string());
    let bar = QueueEntry::new("bar".to_string(), "Bar User".to_string());

    queue.push(guild, foo.clone()).unwrap();
    queue.push(guild, bar.clone()).unwrap();

    assert_eq!(queue.size(guild).unwrap(), 2);
    assert_eq!(queue.index_of(guild, "bar").unwrap(), Some(1));

    let popped = queue.pop(guild).unwrap();
    assert_eq!(popped, Some(foo));
    assert_eq!(queue.size(guild).unwrap(), 1);

    let remaining = queue.list(guild).unwrap();
    assert_eq!(remaining, vec![bar]);
}

#[test]
fn redis_queue_repository_test_list() {
    let mut queue = MemoryQueueRepository::new();
    let guild = "test-list";
    queue.clear(guild).unwrap();
    queue.open(guild);

    let foo = QueueEntry::new("foo".to_string(), "Foo User".to_string());
    let bar = QueueEntry::new("bar".to_string(), "Bar User".to_string());

    queue.push(guild, foo.clone()).unwrap();
    queue.push(guild, bar.clone()).unwrap();

    let list = queue.list(guild).unwrap();
    assert_eq!(list, vec![foo, bar]);
}

#[test]
fn redis_queue_repository_test_index_of() {
    let mut queue = MemoryQueueRepository::new();
    let guild = "test-index-of";
    queue.clear(guild).unwrap();
    queue.open(guild);

    let foo = QueueEntry::new("foo".to_string(), "Foo User".to_string());
    let bar = QueueEntry::new("bar".to_string(), "Bar User".to_string());

    queue.push(guild, foo).unwrap();
    queue.push(guild, bar).unwrap();

    assert_eq!(queue.index_of(guild, "foo").unwrap(), Some(0));
    assert_eq!(queue.index_of(guild, "bar").unwrap(), Some(1));
    assert_eq!(queue.index_of(guild, "baz").unwrap(), None);
}

#[test]
fn redis_queue_repository_test_size() {
    let mut queue = MemoryQueueRepository::new();
    let guild = "test-size";
    queue.clear(guild).unwrap();
    queue.open(guild);

    assert_eq!(queue.size(guild).unwrap(), 0);

    let foo = QueueEntry::new("foo".to_string(), "Foo User".to_string());
    let bar = QueueEntry::new("bar".to_string(), "Bar User".to_string());

    queue.push(guild, foo).unwrap();
    queue.push(guild, bar).unwrap();

    assert_eq!(queue.size(guild).unwrap(), 2);
}

#[test]
fn test_clear() {
    let mut queue = MemoryQueueRepository::new();
    let guild = "test-clear";
    queue.clear(guild).unwrap();
    queue.open(guild);

    let foo = QueueEntry::new("foo".to_string(), "Foo User".to_string());
    let bar = QueueEntry::new("bar".to_string(), "Bar User".to_string());

    queue.push(guild, foo).unwrap();
    queue.push(guild, bar).unwrap();

    assert_eq!(queue.size(guild).unwrap(), 2);

    queue.clear(guild).unwrap();

    assert_eq!(queue.size(guild).unwrap(), 0);
}

#[test]
fn pop_n_takes_from_the_front() {
    let mut queue = MemoryQueueRepository::new();
    queue.open("g");
    for user in ["a", "b", "c"] {
        queue.push("g", QueueEntry::new(user.to_string(), String::new())).unwrap();
    }
    let taken = queue.pop_n("g", 2).unwrap();
    assert_eq!(
        taken,
        vec![
            QueueEntry::new("a".to_string(), String::new()),
            QueueEntry::new("b".to_string(), String::new()),
        ]
    );
    assert_eq!(queue.list("g").unwrap(), vec![QueueEntry::new("c".to_string(), String::new())]);
    assert_eq!(queue.pop_n("g", 5).unwrap().len(), 1);
    assert_eq!(queue.pop_n("g", 5).unwrap(), vec![]);
    assert_eq!(queue.pop_n("unknown", 5).unwrap(), vec![]);
}

#[test]
fn pop_of_an_unknown_guild_gives_nothing() {
    let mut queue = MemoryQueueRepository::new();
    assert_eq!(queue.pop("nobody").unwrap(), None);
    assert_eq!(queue.size("nobody").unwrap(), 0);
    assert!(!queue.is_open("nobody"));
}

#[test]
fn close_drains_and_open_keeps() {
    let mut queue = MemoryQueueRepository::new();
    queue.open("g");
    queue.push("g", QueueEntry::new("a".to_string(), "A".to_string())).unwrap();
    queue.open("g");
    assert!(queue.is_open("g"));
    assert_eq!(queue.size("g").unwrap(), 1);
    queue.close("g").unwrap();
    assert!(!queue.is_open("g"));
    assert_eq!(queue.size("g").unwrap(), 0);
}

#[test]
fn a_guild_id_is_told_from_one_that_starts_like_it() {
    let mut queue = MemoryQueueRepository::new();
    queue.open("g1");
    queue.push("g1", QueueEntry::new("a".to_string(), "A".to_string())).unwrap();
    assert!(!queue.is_open("g"));
    assert!(!queue.is_open("g11"));
    assert_eq!(queue.size("g11").unwrap(), 0);
    assert_eq!(queue.index_of("g1", "a").unwrap(), Some(0));
    assert_eq!(queue.index_of("g1", "").unwrap(), None);
}

const QUEUE_NAME: &str = "queue";

fn waiting(user_id: &str) -> QueueEntry {
    QueueEntry::new(user_id.to_string(), String::new())
}

fn user_ids(entries: Vec<QueueEntry>) -> Vec<String> {
    entries.into_iter().map(|e| e.user_id).collect()
}

#[test]
fn queue_test_push_and_pop() {
    let mut queue = MemoryQueueRepository::new();
    queue.open(QUEUE_NAME);

    queue.push(QUEUE_NAME, waiting("foo")).unwrap();
    queue.push(QUEUE_NAME, waiting("bar")).unwrap();

    assert_eq!(queue.size(QUEUE_NAME).unwrap(), 2);
    assert_eq!(queue.index_of(QUEUE_NAME, "bar").unwrap(), Some(1));

    let popped = queue.pop(QUEUE_NAME).unwrap().map(|e| e.user_id);
    assert_eq!(popped, Some("foo".to_string()));
    assert_eq!(queue.size(QUEUE_NAME).unwrap(), 1);

    let remaining = user_ids(queue.list(QUEUE_NAME).unwrap());
    assert_eq!(remaining, vec!["bar".to_string()]);
}

#[test]
fn queue_test_list() {
    let mut queue = MemoryQueueRepository::new();
    queue.open(QUEUE_NAME);

    queue.push(QUEUE_NAME, waiting("foo")).unwrap();
    queue.push(QUEUE_NAME, waiting("bar")).unwrap();

    let list = user_ids(queue.list(QUEUE_NAME).unwrap());
    assert_eq!(list, vec!["foo".to_string(), "bar".to_string()]);
}

#[test]
fn queue_test_index_of() {
    let mut queue = MemoryQueueRepository::new();
    queue.open(QUEUE_NAME);

    queue.push(QUEUE_NAME, waiting("foo")).unwrap();
    queue.push(QUEUE_NAME, waiting("bar")).unwrap();

    assert_eq!(queue.index_of(QUEUE_NAME, "foo").unwrap(), Some(0));
    assert_eq!(queue.index_of(QUEUE_NAME, "bar").unwrap(), Some(1));
    assert_eq!(queue.index_of(QUEUE_NAME, "baz").unwrap(), None);
}

#[test]
fn queue_test_size() {
    let mut queue = MemoryQueueRepository::new();
    queue.open(QUEUE_NAME);

    assert_eq!(queue.size(QUEUE_NAME).unwrap(), 0);

    queue.push(QUEUE_NAME, waiting("foo")).unwrap();
    queue.push(QUEUE_NAME, waiting("bar")).unwrap();

    assert_eq!(queue.size(QUEUE_NAME).unwrap(), 2);
}

#[test]
fn push_adds_a_user_once() {
    let mut queue = MemoryQueueRepository::new();
    queue.open("g1");
    assert_eq!(
        queue.push("g1", QueueEntry::new("u1".to_string(), "A".to_string())),
        Ok(Enrollment::Enrolled(1))
    );
    assert_eq!(
        queue.push("g1", QueueEntry::new("u1".to_string(), "B".to_string())),
        Ok(Enrollment::AlreadyPresent(0))
    );
    assert_eq!(queue.size("g1"), Ok(1));
    assert_eq!(
        queue.list("g1"),
        Ok(vec![QueueEntry::new("u1".to_string(), "A".to_string())])
    );
    assert_eq!(queue.index_of("g1", "u1"), Ok(Some(0)));
    assert_eq!(
        queue.push("g1", QueueEntry::new("u2".to_string(), "C".to_string())),
        Ok(Enrollment::Enrolled(2))
    );
    assert_eq!(
        queue.push("g1", QueueEntry::new("u2".to_string(), "C".to_string())),
        Ok(Enrollment::AlreadyPresent(1))
    );
    assert_eq!(queue.size("g1"), Ok(2));
}

#[test]
fn push_adds_nobody_to_a_closed_queue() {
    let mut queue = MemoryQueueRepository::new();
    assert_eq!(
        queue.push("g1", QueueEntry::new("u1".to_string(), "A".to_string())),
        Ok(Enrollment::Closed)
    );
    assert_eq!(queue.size("g1"), Ok(0));
    queue.open("g1");
    queue.push("g1", QueueEntry::new("u1".to_string(), "A".to_string())).unwrap();
    queue.close("g1").unwrap();
    assert_eq!(
        queue.push("g1", QueueEntry::new("u2".to_string(), "B".to_string())),
        Ok(Enrollment::Closed)
    );
    assert_eq!(queue.list("g1"), Ok(vec![]));
    assert!(!queue.is_open("g1"));
}
