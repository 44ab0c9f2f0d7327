use timely::capability::Capability;
use timely::capability::mint_capability;
use timely::channels::Buffer;
use timely::channels::MessageQueue;
use timely::channels::PullCounter;
use timely::handles::new_input_handle;
use timely::handles::new_output_handle;
use timely::progress::CountMap;

fn net(deltas: &Vec<(u64, i64)>, t: u64) -> i64 {
    let mut sum = 0;
    for &(time, delta) in deltas.iter() {
        if time == t {
            sum += delta;
        }
    }
    sum
}

#[test]
fn queue_delivers_in_order() {
    let mut queue: MessageQueue<u64, i32> = MessageQueue::new();
    queue.enqueue(1, vec![10, 11]);
    queue.enqueue(2, vec![20]);
    let first = queue.pull().unwrap();
    assert_eq!(first.0, 1);
    assert_eq!(first.1, vec![10, 11]);
    let second = queue.pull().unwrap();
    assert_eq!(second.0, 2);
    assert_eq!(second.1, vec![20]);
    assert!(queue.pull().is_none());
}

#[test]
fn pull_counter_decrements_per_batch() {
    let mut queue: MessageQueue<u64, i32> = MessageQueue::new();
    queue.enqueue(3, vec![1]);
    queue.enqueue(3, vec![2]);
    let mut counter = PullCounter::new(queue);
    assert!(counter.next().is_some());
    assert!(counter.next().is_some());
    assert!(counter.next().is_none());
    let drained = counter.drain_consumed();
    assert_eq!(net(&drained, 3), -2);
}

#[test]
fn input_handle_mints_at_received_time() {
    let mut queue: MessageQueue<u64, i32> = MessageQueue::new();
    queue.enqueue(7, vec![41, 42]);
    let mut input = new_input_handle(PullCounter::new(queue));
    let mut internal: CountMap<u64> = CountMap::new();
    let (cap, batch) = input.next(&mut internal).unwrap();
    assert_eq!(cap.time(), 7);
    assert_eq!(batch, vec![41, 42]);
    assert_eq!(internal.count_of(&7), 1);
    assert!(input.next(&mut internal).is_none());
    cap.release(&mut internal);
    assert!(internal.is_empty());
}

#[test]
fn scenario_for_each_leaks_no_obligation() {
    let mut queue: MessageQueue<u64, i32> = MessageQueue::new();
    queue.enqueue(2, vec![1]);
    queue.enqueue(2, vec![2, 3]);
    queue.enqueue(3, vec![4]);
    let mut input = new_input_handle(PullCounter::new(queue));
    let mut internal: CountMap<u64> = CountMap::new();
    let seen = input.for_each(
        &mut internal,
        Vec::new(),
        |mut seen: Vec<(u64, usize)>, cap: &Capability<u64>, data: Vec<i32>| {
            seen.push((cap.time(), data.len()));
            seen
        },
    );
    assert_eq!(seen, vec![(2, 1), (2, 2), (3, 1)]);
    assert_eq!(internal.count_of(&2), 0);
    assert_eq!(internal.count_of(&3), 0);
    assert!(internal.is_empty());
    let drained = input.drain_consumed();
    assert_eq!(net(&drained, 2), -2);
    assert_eq!(net(&drained, 3), -1);
}

#[test]
fn scenario_session_flushes_once_on_cease() {
    let mut internal: CountMap<u64> = CountMap::new();
    let cap = mint_capability(4u64, &mut internal);
    let mut output = new_output_handle(Buffer::<u64, u32>::new());
    output.session(&cap);
    for i in 0..100u32 {
        output.give(i);
    }
    assert_eq!(output.take_sent().len(), 0);
    output.cease();
    let sent = output.take_sent();
    assert_eq!(sent.len(), 1);
    assert_eq!(sent[0].0, 4);
    assert_eq!(sent[0].1.len(), 100);
    assert_eq!(sent[0].1[0], 0);
    assert_eq!(sent[0].1[99], 99);
    let produced = output.drain_produced();
    assert_eq!(net(&produced, 4), 1);
    assert_eq!(produced.len(), 1);
    cap.release(&mut internal);
}

#[test]
fn session_flushes_when_timestamp_changes() {
    let mut internal: CountMap<u64> = CountMap::new();
    let cap1 = mint_capability(1u64, &mut internal);
    let cap2 = mint_capability(2u64, &mut internal);
    let mut output = new_output_handle(Buffer::<u64, u32>::new());
    output.session(&cap1);
    output.give(100);
    output.session(&cap2);
    output.give(200);
    output.cease();
    let sent = output.take_sent();
    assert_eq!(sent.len(), 2);
    assert_eq!(sent[0].0, 1);
    assert_eq!(sent[0].1, vec![100]);
    assert_eq!(sent[1].0, 2);
    assert_eq!(sent[1].1, vec![200]);
    let produced = output.drain_produced();
    assert_eq!(net(&produced, 1), 1);
    assert_eq!(net(&produced, 2), 1);
    cap1.release(&mut internal);
    cap2.release(&mut internal);
}

#[test]
fn buffer_flushes_at_threshold() {
    let mut internal: CountMap<u64> = CountMap::new();
    let cap = mint_capability(9u64, &mut internal);
    let mut buffer: Buffer<u64, u32> = Buffer::new();
    buffer.session(&cap);
    for i in 0..1024u32 {
        buffer.give(i);
    }
    let sent = buffer.take_sent();
    assert_eq!(sent.len(), 1);
    assert_eq!(sent[0].0, 9);
    assert_eq!(sent[0].1.len(), 1024);
    buffer.give(7);
    buffer.cease();
    let rest = buffer.take_sent();
    assert_eq!(rest.len(), 1);
    assert_eq!(rest[0].1, vec![7]);
    cap.release(&mut internal);
}

#[test]
fn pipeline_moves_batches_downstream() {
    let mut internal: CountMap<u64> = CountMap::new();
    let cap = mint_capability(5u64, &mut internal);
    let mut output = new_output_handle(Buffer::<u64, i32>::new());
    output.session(&cap);
    output.give(-1);
    output.give(-2);
    output.cease();
    let mut downstream: MessageQueue<u64, i32> = MessageQueue::new();
    for (time, batch) in output.take_sent() {
        downstream.enqueue(time, batch);
    }
    let mut input = new_input_handle(PullCounter::new(downstream));
    let mut received: CountMap<u64> = CountMap::new();
    let (cap2, batch) = input.next(&mut received).unwrap();
    assert_eq!(cap2.time(), 5);
    assert_eq!(batch, vec![-1, -2]);
    cap2.release(&mut received);
    cap.release(&mut internal);
}
