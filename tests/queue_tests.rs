use netbricks::mbuf::MBuf;
use netbricks::mpsc::MpscQueue;

fn tagged(id: u32) -> MBuf {
    let mut m = MBuf::new(0, 0);
    m.hash_rss = id;
    m
}

fn queue(size: usize, producers: usize) -> MpscQueue {
    let mut q = MpscQueue::new(size).unwrap();
    for _ in 0..producers {
        q.reference_producers();
    }
    q
}

#[test]
fn queue_rounds_size_to_power_of_two() {
    let q = MpscQueue::new(1000).unwrap();
    assert_eq!(q.slots, 1024);
    assert_eq!(q.free_slots(), 1023);
    assert_eq!(q.used_slots(), 0);
    assert!(MpscQueue::new(usize::MAX).is_none());
}

#[test]
fn enqueue_then_dequeue_one() {
    let mut q = queue(8, 1);
    assert!(q.enqueue_one(tagged(42)).is_ok());
    let mut out = Vec::new();
    assert_eq!(q.dequeue(&mut out, 4), 1);
    assert_eq!(out.len(), 1);
    assert_eq!(out[0].hash_rss, 42);
    assert_eq!(q.used_slots(), 0);
    assert_eq!(q.dequeue(&mut out, 4), 0);
}

#[test]
fn enqueue_stops_when_full() {
    let mut q = queue(4, 1);
    let mut v: Vec<MBuf> = (0..6).map(tagged).collect();
    assert_eq!(q.enqueue(&mut v), 3);
    assert_eq!(v.len(), 3);
    assert_eq!(v[0].hash_rss, 3);
    assert_eq!(q.free_slots(), 0);
    let back = q.enqueue_one(tagged(9));
    assert_eq!(back.err().unwrap().hash_rss, 9);
    let mut out = Vec::new();
    assert_eq!(q.dequeue(&mut out, 2), 2);
    assert_eq!(q.enqueue(&mut v), 2);
    assert_eq!(q.dequeue(&mut out, 10), 3);
    let ids: Vec<u32> = out.iter().map(|m| m.hash_rss).collect();
    assert_eq!(ids, vec![0, 1, 2, 3, 4]);
}

#[test]
fn mpsc_single_producer_million() {
    let mut q = queue(1024, 1);
    let total: u32 = 1_000_000;
    let mut next: u32 = 0;
    let mut expected: u32 = 0;
    let mut out = Vec::with_capacity(64);
    while expected < total {
        let mut burst: Vec<MBuf> = Vec::new();
        let mut k = 0;
        while k < 32 && next < total {
            burst.push(tagged(next));
            next += 1;
            k += 1;
        }
        let n = q.enqueue(&mut burst);
        next -= burst.len() as u32;
        assert!(n <= 32);
        out.clear();
        q.dequeue(&mut out, 24);
        for m in &out {
            assert_eq!(m.hash_rss, expected);
            expected += 1;
        }
    }
    assert_eq!(q.used_slots(), 0);
}

#[test]
fn mpsc_four_producers_keep_their_order() {
    let mut q = queue(1024, 4);
    let per: u32 = 250_000;
    let mut sent = [0u32; 4];
    let mut seen = [0u32; 4];
    let mut total: u32 = 0;
    let mut out = Vec::with_capacity(64);
    while total < 4 * per {
        for p in 0..4u32 {
            let mut burst: Vec<MBuf> = Vec::new();
            let mut k = 0;
            while k < 8 && sent[p as usize] < per {
                burst.push(tagged(p << 24 | sent[p as usize]));
                sent[p as usize] += 1;
                k += 1;
            }
            q.enqueue(&mut burst);
            sent[p as usize] -= burst.len() as u32;
        }
        out.clear();
        q.dequeue(&mut out, 40);
        for m in &out {
            let p = (m.hash_rss >> 24) as usize;
            assert_eq!(m.hash_rss & 0xff_ffff, seen[p]);
            seen[p] += 1;
            total += 1;
        }
    }
    assert_eq!(seen, [per; 4]);
    assert_eq!(q.used_slots(), 0);
}

#[test]
fn power_of_two_sizes_are_kept() {
    let one = MpscQueue::new(1).unwrap();
    assert_eq!(one.slots, 1);
    assert_eq!(one.mask, 0);
    assert_eq!(one.free_slots(), 0);
    assert_eq!(MpscQueue::new(8).unwrap().slots, 8);
    assert_eq!(MpscQueue::new(9).unwrap().slots, 16);
    let mut q = queue(1, 1);
    assert!(q.enqueue_one(tagged(1)).is_err());
}
