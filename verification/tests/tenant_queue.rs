use vaffelbot::domain::{QueueEntry, QueueRepository, StorageError};
use vaffelbot::infrastructure::MemoryQueueRepository;
use vaffelbot::tenant_queue::{Enrollment, TenantQueue};

fn entry(user_id: &str) -> QueueEntry {
    QueueEntry::new(user_id.to_string(), format!("{user_id} name"))
}

fn open_queue(guild_id: &str) -> TenantQueue<MemoryQueueRepository> {
    let mut queue = TenantQueue::new(MemoryQueueRepository::new());
    queue.open(guild_id);
    queue
}

/// A store whose storage cannot be reached. Only its open flags work.
struct UnreachableStore {
    open: Vec<String>,
}

impl QueueRepository for UnreachableStore {
    fn open(&mut self, guild_id: &str) {
        if !self.is_open(guild_id) {
            self.open.push(guild_id.to_string());
        }
    }

    fn close(&mut self, _guild_id: &str) -> Result<(), StorageError> {
        Err(StorageError::Unavailable)
    }

    fn is_open(&self, guild_id: &str) -> bool {
        self.open.iter().any(|g| g == guild_id)
    }

    fn index_of(&self, _guild_id: &str, _user_id: &str) -> Result<Option<usize>, StorageError> {
        Err(StorageError::Unavailable)
    }

    fn size(&self, _guild_id: &str) -> Result<usize, StorageError> {
        Err(StorageError::Unavailable)
    }

    fn push(&mut self, guild_id: &str, _entry: QueueEntry) -> Result<Enrollment, StorageError> {
        if !self.is_open(guild_id) {
            return Ok(Enrollment::Closed);
        }
        Err(StorageError::Unavailable)
    }

    fn pop(&mut self, _guild_id: &str) -> Result<Option<QueueEntry>, StorageError> {
        Err(StorageError::Unavailable)
    }

    fn pop_n(&mut self, _guild_id: &str, _n: usize) -> Result<Vec<QueueEntry>, StorageError> {
        Err(StorageError::Unavailable)
    }

    fn list(&self, _guild_id: &str) -> Result<Vec<QueueEntry>, StorageError> {
        Err(StorageError::Unavailable)
    }

    fn clear(&mut self, _guild_id: &str) -> Result<(), StorageError> {
        Err(StorageError::Unavailable)
    }
}

#[test]
fn a_guild_starts_closed_and_empty() {
    let queue = TenantQueue::new(MemoryQueueRepository::new());
    assert!(!queue.is_open("g1"));
    assert_eq!(queue.size("g1"), Ok(0));
    assert_eq!(queue.list("g1"), Ok(vec![]));
    assert_eq!(queue.index_of("g1", "u1"), Ok(None));
}

#[test]
fn open_enroll_serve() {
    let mut queue = TenantQueue::new(MemoryQueueRepository::new());
    assert!(!queue.is_open("g1"));
    queue.open("g1");
    assert!(queue.is_open("g1"));
    assert_eq!(queue.enroll("g1", entry("u1")), Ok(Enrollment::Enrolled(1)));
    assert_eq!(queue.enroll("g1", entry("u2")), Ok(Enrollment::Enrolled(2)));
    assert_eq!(queue.enroll("g1", entry("u3")), Ok(Enrollment::Enrolled(3)));
    assert_eq!(queue.size("g1"), Ok(3));
    assert_eq!(queue.index_of("g1", "u2"), Ok(Some(1)));
    assert_eq!(queue.dequeue_n("g1", 2), Ok(vec![entry("u1"), entry("u2")]));
    assert_eq!(queue.list("g1"), Ok(vec![entry("u3")]));
}

#[test]
fn asking_for_more_than_wait_serves_those_who_wait() {
    let mut queue = open_queue("g1");
    queue.enroll("g1", entry("u1")).unwrap();
    assert_eq!(queue.dequeue_n("g1", 10), Ok(vec![entry("u1")]));
    assert_eq!(queue.size("g1"), Ok(0));
    assert_eq!(queue.dequeue_n("g1", 10), Ok(vec![]));
}

#[test]
fn asking_for_none_serves_none() {
    let mut queue = open_queue("g1");
    queue.enroll("g1", entry("u1")).unwrap();
    assert_eq!(queue.dequeue_n("g1", 0), Ok(vec![]));
    assert_eq!(queue.list("g1"), Ok(vec![entry("u1")]));
}

#[test]
fn the_same_user_is_enrolled_once() {
    let mut queue = open_queue("g1");
    assert_eq!(queue.enroll("g1", entry("u1")), Ok(Enrollment::Enrolled(1)));
    assert_eq!(
        queue.enroll("g1", QueueEntry::new("u1".to_string(), "another name".to_string())),
        Ok(Enrollment::AlreadyPresent(0))
    );
    assert_eq!(queue.size("g1"), Ok(1));
    assert_eq!(queue.list("g1"), Ok(vec![entry("u1")]));
}

#[test]
fn a_second_enrollment_keeps_size_and_place() {
    let mut queue = open_queue("g1");
    queue.enroll("g1", entry("u1")).unwrap();
    queue.enroll("g1", entry("u2")).unwrap();
    queue.enroll("g1", entry("u3")).unwrap();
    assert_eq!(queue.enroll("g1", entry("u2")), Ok(Enrollment::AlreadyPresent(1)));
    assert_eq!(queue.size("g1"), Ok(3));
    assert_eq!(queue.index_of("g1", "u1"), Ok(Some(0)));
    assert_eq!(queue.index_of("g1", "u2"), Ok(Some(1)));
    assert_eq!(queue.index_of("g1", "u3"), Ok(Some(2)));
}

#[test]
fn a_closed_queue_takes_nobody() {
    let mut queue = TenantQueue::new(MemoryQueueRepository::new());
    assert_eq!(queue.enroll("g1", entry("u1")), Ok(Enrollment::Closed));
    assert_eq!(queue.size("g1"), Ok(0));
}

#[test]
fn those_enrolled_stand_where_they_joined() {
    let mut queue = open_queue("g1");
    let users = ["a", "b", "c", "d", "e"];
    for user in users {
        queue.enroll("g1", entry(user)).unwrap();
    }
    let listed = queue.list("g1").unwrap();
    assert_eq!(listed, users.iter().map(|u| entry(u)).collect::<Vec<_>>());
    for (rank, user) in users.iter().enumerate() {
        assert_eq!(queue.index_of("g1", user), Ok(Some(rank)));
    }
    assert_eq!(queue.dequeue_one("g1"), Ok(Some(entry("a"))));
    assert_eq!(queue.index_of("g1", "a"), Ok(None));
    assert_eq!(queue.index_of("g1", "b"), Ok(Some(0)));
    assert_eq!(queue.index_of("g1", "e"), Ok(Some(3)));
}

#[test]
fn closing_drains_the_queue() {
    let mut queue = open_queue("g1");
    queue.enroll("g1", entry("u1")).unwrap();
    queue.enroll("g1", entry("u2")).unwrap();
    assert_eq!(queue.close("g1"), Ok(()));
    assert_eq!(queue.list("g1"), Ok(vec![]));
    assert!(!queue.is_open("g1"));
}

#[test]
fn opening_twice_is_opening_once() {
    let mut queue = open_queue("g1");
    queue.enroll("g1", entry("u1")).unwrap();
    queue.open("g1");
    assert!(queue.is_open("g1"));
    assert_eq!(queue.list("g1"), Ok(vec![entry("u1")]));
}

#[test]
fn closing_twice_is_closing_once() {
    let mut queue = open_queue("g1");
    queue.enroll("g1", entry("u1")).unwrap();
    queue.close("g1").unwrap();
    queue.close("g1").unwrap();
    assert!(!queue.is_open("g1"));
    assert_eq!(queue.size("g1"), Ok(0));
}

#[test]
fn clearing_leaves_the_queue_open() {
    let mut queue = open_queue("g1");
    queue.enroll("g1", entry("u1")).unwrap();
    assert_eq!(queue.clear("g1"), Ok(()));
    assert!(queue.is_open("g1"));
    assert_eq!(queue.size("g1"), Ok(0));
    assert_eq!(queue.enroll("g1", entry("u1")), Ok(Enrollment::Enrolled(1)));
}

#[test]
fn serving_one_takes_the_earliest() {
    let mut queue = open_queue("g1");
    assert_eq!(queue.dequeue_one("g1"), Ok(None));
    queue.enroll("g1", entry("u1")).unwrap();
    queue.enroll("g1", entry("u2")).unwrap();
    assert_eq!(queue.dequeue_one("g1"), Ok(Some(entry("u1"))));
    assert_eq!(queue.dequeue_one("g1"), Ok(Some(entry("u2"))));
    assert_eq!(queue.dequeue_one("g1"), Ok(None));
}

#[test]
fn serving_one_by_one_is_serving_at_once() {
    let mut at_once = open_queue("g1");
    let mut one_by_one = open_queue("g1");
    for user in ["a", "b", "c", "d"] {
        at_once.enroll("g1", entry(user)).unwrap();
        one_by_one.enroll("g1", entry(user)).unwrap();
    }
    let together = at_once.dequeue_n("g1", 3).unwrap();
    let mut singly = Vec::new();
    for _ in 0..3 {
        singly.push(one_by_one.dequeue_one("g1").unwrap().unwrap());
    }
    assert_eq!(together, singly);
    assert_eq!(at_once.list("g1"), one_by_one.list("g1"));
}

#[test]
fn guilds_do_not_see_each_other() {
    let mut queue = open_queue("g1");
    queue.enroll("g1", entry("u1")).unwrap();
    assert!(!queue.is_open("g2"));
    assert_eq!(queue.enroll("g2", entry("u1")), Ok(Enrollment::Closed));
    queue.open("g2");
    assert_eq!(queue.enroll("g2", entry("u1")), Ok(Enrollment::Enrolled(1)));
    assert_eq!(queue.enroll("g2", entry("u2")), Ok(Enrollment::Enrolled(2)));
    queue.close("g2").unwrap();
    assert_eq!(queue.list("g1"), Ok(vec![entry("u1")]));
    assert!(queue.is_open("g1"));
}

#[test]
fn a_store_that_cannot_be_reached_is_reported() {
    let mut queue = TenantQueue::new(UnreachableStore { open: Vec::new() });
    assert_eq!(queue.enroll("g1", entry("u1")), Ok(Enrollment::Closed));
    queue.open("g1");
    assert_eq!(queue.enroll("g1", entry("u1")), Err(StorageError::Unavailable));
    assert_eq!(queue.index_of("g1", "u1"), Err(StorageError::Unavailable));
    assert_eq!(queue.size("g1"), Err(StorageError::Unavailable));
    assert_eq!(queue.list("g1"), Err(StorageError::Unavailable));
    assert_eq!(queue.dequeue_one("g1"), Err(StorageError::Unavailable));
    assert_eq!(queue.dequeue_n("g1", 2), Err(StorageError::Unavailable));
    assert_eq!(queue.dequeue_n("g1", 0), Ok(vec![]));
    assert_eq!(queue.clear("g1"), Err(StorageError::Unavailable));
    assert_eq!(queue.close("g1"), Err(StorageError::Unavailable));
    assert!(queue.is_open("g1"));
}
