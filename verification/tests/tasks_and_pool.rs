use hydrogen::pool::WorkerPool;
use hydrogen::stats::Stats;
use hydrogen::task::{check_stats_request, read_stats_window, route, route_all, Task};

#[test]
fn a_stats_request_is_six_bytes_behind_two_marks() {
    assert!(check_stats_request(&vec![0x04, 0x04, 0, 0, 0x80, 0x3F]));
    assert!(check_stats_request(&vec![0x04, 0x04, 1, 2, 3, 4]));
    assert!(!check_stats_request(&vec![0x04, 0x04, 1, 2, 3]));
    assert!(!check_stats_request(&vec![0x04, 0x04, 1, 2, 3, 4, 5]));
    assert!(!check_stats_request(&vec![0x04, 0x05, 1, 2, 3, 4]));
    assert!(!check_stats_request(&vec![0x05, 0x04, 1, 2, 3, 4]));
    assert!(!check_stats_request(&vec![]));
    assert!(!check_stats_request(&vec![0x04]));
}

#[test]
fn the_window_is_read_lowest_byte_first() {
    let one = read_stats_window(&vec![0x04, 0x04, 0x00, 0x00, 0x80, 0x3F]).unwrap();
    assert_eq!(one, 0x3F80_0000);
    assert_eq!(f32::from_bits(one), 1.0f32);
    assert_eq!(read_stats_window(&vec![4, 4, 0x78, 0x56, 0x34, 0x12]), Some(0x1234_5678));
    assert_eq!(read_stats_window(&vec![4, 4, 0xFF, 0xFF, 0xFF, 0xFF]), Some(u32::MAX));
    assert_eq!(read_stats_window(&vec![4, 4, 0, 0, 0, 0]), Some(0));
    let half = read_stats_window(&vec![4, 4, 0x00, 0x00, 0x00, 0x3F]).unwrap();
    assert_eq!(f32::from_le_bytes([0x00, 0x00, 0x00, 0x3F]), 0.5f32);
    assert_eq!(f32::from_bits(half), 0.5f32);
}

#[test]
fn what_is_no_stats_request_has_no_window() {
    assert_eq!(read_stats_window(&vec![]), None);
    assert_eq!(read_stats_window(&vec![4, 4, 0, 0, 0]), None);
    assert_eq!(read_stats_window(&vec![4, 4, 0, 0, 0, 0, 0]), None);
    assert_eq!(read_stats_window(&vec![4, 5, 0, 0, 0, 0]), None);
    assert_eq!(read_stats_window(&vec![1, 2, 3]), None);
}

#[test]
fn a_message_is_delivered_unchanged_and_a_stats_request_is_answered() {
    assert_eq!(
        route(7, vec![1, 2, 3]),
        Task::Deliver { fd: 7, payload: vec![1, 2, 3] }
    );
    assert_eq!(route(7, vec![]), Task::Deliver { fd: 7, payload: vec![] });
    assert_eq!(
        route(7, vec![0x04, 0x04, 0, 0, 0x80, 0x3F]),
        Task::EmitStats { fd: 7, window: 0x3F80_0000 }
    );
    assert_eq!(
        route(7, vec![0x04, 0x04, 0, 0, 0x80]),
        Task::Deliver { fd: 7, payload: vec![0x04, 0x04, 0, 0, 0x80] }
    );
}

#[test]
fn routing_keeps_the_order_and_gives_one_task_each() {
    let payloads = vec![
        vec![1],
        vec![0x04, 0x04, 1, 0, 0, 0],
        vec![2, 2],
        vec![],
        vec![0x04, 0x04, 2, 0, 0, 0],
        vec![3],
    ];
    assert_eq!(
        route_all(9, payloads),
        vec![
            Task::Deliver { fd: 9, payload: vec![1] },
            Task::EmitStats { fd: 9, window: 1 },
            Task::Deliver { fd: 9, payload: vec![2, 2] },
            Task::Deliver { fd: 9, payload: vec![] },
            Task::EmitStats { fd: 9, window: 2 },
            Task::Deliver { fd: 9, payload: vec![3] },
        ]
    );
    assert_eq!(route_all(9, vec![]), vec![]);
}

#[test]
fn a_pool_needs_a_worker() {
    assert!(WorkerPool::new(0).is_none());
    assert_eq!(WorkerPool::new(3).unwrap().workers(), 3);
}

#[test]
fn the_workers_take_turns() {
    let mut pool = WorkerPool::new(3).unwrap();
    let picks: Vec<usize> = (0..8).map(|_| pool.pick()).collect();
    assert_eq!(picks, vec![0, 1, 2, 0, 1, 2, 0, 1]);
    let mut single = WorkerPool::new(1).unwrap();
    assert_eq!((0..4).map(|_| single.pick()).collect::<Vec<_>>(), vec![0, 0, 0, 0]);
    let mut two = WorkerPool::new(2).unwrap();
    let mut load = [0usize; 2];
    for _ in 0..500 {
        load[two.pick()] += 1;
    }
    assert_eq!(load, [250, 250]);
}

#[test]
fn the_counters_count_by_one() {
    let mut s = Stats::new();
    assert_eq!(
        s,
        Stats { fds_opened: 0, fds_closed: 0, connections_received: 0, connections_lost: 0 }
    );
    assert!(s.has_room());
    s.fd_opened();
    s.fd_opened();
    s.fd_closed();
    s.conn_recv();
    s.conn_recv();
    s.conn_recv();
    s.conn_lost();
    assert_eq!(
        s,
        Stats { fds_opened: 2, fds_closed: 1, connections_received: 3, connections_lost: 1 }
    );
    let full = Stats { fds_opened: u64::MAX, ..s };
    assert!(!full.has_room());
    assert!(!Stats { fds_closed: u64::MAX, ..s }.has_room());
    assert!(!Stats { connections_received: u64::MAX, ..s }.has_room());
    assert!(!Stats { connections_lost: u64::MAX, ..s }.has_room());
}
