use frp2::network::Network;
use frp2::node::Edge;
use frp2::node::InputType;
use frp2::node::Listen;
use frp2::node::ListenAndSample;
use frp2::node::NodeId;
use frp2::node::Sample;
use frp2::runtime::Runtime;
use frp2::value::BinaryFn;
use frp2::value::Reaction;
use frp2::value::UnaryFn;
use frp2::value::Value;

fn num(n: u64) -> Value {
    Value::Num(n)
}

fn plus_one() -> UnaryFn {
    UnaryFn { mul: 1, add: 1 }
}

#[test]
fn test() {
    let mut rt = Runtime::new();
    let net = Network::new(&mut rt);
    let src1 = net.source(&mut rt);
    let src2 = net.source(&mut rt);
    let m1 = net.map2(&mut rt, src1, src2, BinaryFn { a: 10, b: 1, c: 0 });
    let (_, results) = net.debug_collect(&mut rt, m1);
    assert!(results.assert_eq(&rt, &[]));
    src1.emit(&mut rt, &num(1));
    assert!(results.assert_eq(&rt, &[10]));
    src2.emit(&mut rt, &num(2));
    assert!(results.assert_eq(&rt, &[10]));
    src1.emit(&mut rt, &num(3));
    assert!(results.assert_eq(&rt, &[10, 32]));
}

#[test]
fn test_network_drop() {
    let mut rt = Runtime::new();
    let net1 = Network::new(&mut rt);
    let net1_src = net1.source(&mut rt);
    let net1_tgt = net1.map(&mut rt, net1_src, plus_one());
    let (_, net1_results) = net1.debug_collect(&mut rt, net1_tgt);

    let net2 = Network::new(&mut rt);
    let net2_tgt = net2.map(&mut rt, net1_src, UnaryFn { mul: 3, add: 0 });
    let (_, net2_results) = net2.debug_collect(&mut rt, net2_tgt);

    assert!(net1_results.assert_eq(&rt, &[]));
    assert!(net2_results.assert_eq(&rt, &[]));
    net1_src.emit(&mut rt, &num(1));
    assert!(net1_results.assert_eq(&rt, &[2]));
    assert!(net2_results.assert_eq(&rt, &[3]));

    net2.release(&mut rt);
    net1_src.emit(&mut rt, &num(2));
    assert!(net1_results.assert_eq(&rt, &[2, 3]));
    assert!(net2_results.assert_eq(&rt, &[3]));
}

#[test]
fn test2() {
    let mut rt = Runtime::new();
    for _ in 0..10 {
        let net = Network::new(&mut rt);
        let _src1 = net.source(&mut rt);
        net.release(&mut rt);
    }
    assert_eq!(rt.nodes.len(), 1);
}

#[test]
fn no_sampler_leaves_cache_empty() {
    let mut rt = Runtime::new();
    let net = Network::new(&mut rt);
    let src = net.source(&mut rt);
    let m = net.map(&mut rt, src, plus_one());
    src.emit(&mut rt, &num(5));
    assert_eq!(rt.nodes[src.id.index].data.sampler_count, 0);
    assert!(rt.nodes[src.id.index].data.output_cache.is_none());
    assert!(rt.nodes[m.id.index].data.output_cache.is_none());
}

#[test]
fn sampler_reads_default_then_latest_source_value() {
    let mut rt = Runtime::new();
    let net = Network::new(&mut rt);
    let src = net.source(&mut rt);
    let a = net.map(&mut rt, src, UnaryFn { mul: 100, add: 0 });
    let m = net.map2(&mut rt, a, src, BinaryFn { a: 1, b: 1, c: 0 });
    let (_, seen) = net.debug_collect(&mut rt, m);
    assert_eq!(rt.sample(src.id), Some(0));
    src.emit(&mut rt, &num(2));
    assert_eq!(seen.values(&rt), vec![202]);
    src.emit(&mut rt, &num(3));
    assert_eq!(seen.values(&rt), vec![202, 303]);
    assert_eq!(rt.sample(src.id), Some(3));
    assert_eq!(rt.sample(a.id), Some(0));
}

#[test]
fn dangling_edges_are_pruned_once() {
    let mut rt = Runtime::new();
    let net1 = Network::new(&mut rt);
    let src = net1.source(&mut rt);
    let keep = net1.map(&mut rt, src, plus_one());
    let net2 = Network::new(&mut rt);
    let _heard = net2.map(&mut rt, src, plus_one());
    let _sampled = net2.map2(&mut rt, keep, src, BinaryFn { a: 1, b: 1, c: 0 });
    assert_eq!(rt.nodes[src.id.index].data.outputs.len(), 2);
    assert_eq!(rt.nodes[src.id.index].data.sampler_outputs.len(), 1);
    assert_eq!(rt.nodes[src.id.index].data.sampler_count, 1);
    net2.release(&mut rt);
    assert_eq!(rt.nodes[src.id.index].data.outputs.len(), 2);
    src.emit(&mut rt, &num(1));
    assert_eq!(rt.nodes[src.id.index].data.outputs.len(), 1);
    assert_eq!(rt.nodes[src.id.index].data.outputs[0].target, keep.id);
    assert_eq!(rt.nodes[src.id.index].data.sampler_outputs.len(), 0);
    assert_eq!(rt.nodes[src.id.index].data.sampler_count, 0);
    src.emit(&mut rt, &num(2));
    assert_eq!(rt.nodes[src.id.index].data.outputs.len(), 1);
    assert_eq!(rt.nodes[src.id.index].data.sampler_count, 0);
}

#[test]
fn teardown_leaves_other_networks_alone() {
    let mut rt = Runtime::new();
    let shared = Network::new(&mut rt);
    let src = shared.source(&mut rt);
    let net1 = Network::new(&mut rt);
    let (_, seen1) = net1.debug_collect(&mut rt, src);
    let net2 = Network::new(&mut rt);
    let doubled = net2.map(&mut rt, src, UnaryFn { mul: 2, add: 0 });
    let (_, seen2) = net2.debug_collect(&mut rt, doubled);
    src.emit(&mut rt, &num(4));
    net2.release(&mut rt);
    assert!(!rt.resolves(doubled.id));
    src.emit(&mut rt, &num(5));
    src.emit(&mut rt, &num(6));
    assert_eq!(seen1.values(&rt), vec![4, 5, 6]);
    assert_eq!(seen2.values(&rt), vec![8]);
}

#[test]
fn reused_slot_shows_no_residue() {
    let mut rt = Runtime::new();
    let net1 = Network::new(&mut rt);
    let src = net1.source(&mut rt);
    let old_node = net1.map(&mut rt, src, plus_one());
    let _a = net1.map(&mut rt, old_node, plus_one());
    let _b = net1.map2(&mut rt, src, old_node, BinaryFn { a: 1, b: 1, c: 0 });
    old_node.emit(&mut rt, &num(7));
    assert!(rt.nodes[old_node.id.index].data.output_cache.is_some());
    net1.release(&mut rt);

    let net2 = Network::new(&mut rt);
    let fresh = net2.source(&mut rt);
    let fresh2 = net2.source(&mut rt);
    let fresh3 = net2.source(&mut rt);
    let reused = [fresh, fresh2, fresh3].into_iter().find(|n| n.id.index == old_node.id.index).unwrap();
    assert!(reused.id.generation > old_node.id.generation);
    assert!(!rt.resolves(old_node.id));
    let d = &rt.nodes[reused.id.index].data;
    assert!(d.inputs.is_empty());
    assert!(d.outputs.is_empty());
    assert!(d.sampler_outputs.is_empty());
    assert!(d.output_cache.is_none());
    assert_eq!(d.sampler_count, 0);
    assert_eq!(d.reaction, Reaction::Source);
}

#[test]
fn stale_node_emits_nothing() {
    let mut rt = Runtime::new();
    let net = Network::new(&mut rt);
    let src = net.source(&mut rt);
    let net2 = Network::new(&mut rt);
    let (_, seen) = net2.debug_collect(&mut rt, src);
    net.release(&mut rt);
    src.emit(&mut rt, &num(1));
    assert_eq!(seen.values(&rt), Vec::<u64>::new());
}

#[test]
fn shared_network_lives_until_last_release() {
    let mut rt = Runtime::new();
    let net = Network::new(&mut rt);
    let other = Network::new(&mut rt);
    assert_ne!(net.guard.id, other.guard.id);
    let src = net.source(&mut rt);
    let second = net.share(&mut rt);
    assert_eq!(second.guard.id, net.guard.id);
    net.release(&mut rt);
    assert!(rt.resolves(src.id));
    second.release(&mut rt);
    assert!(!rt.resolves(src.id));
    assert_eq!(rt.metrics.total_networks, 1);
    assert_eq!(rt.metrics.total_networks_ever, 2);
    assert_eq!(rt.metrics.total_nodes, 0);
    assert_eq!(rt.metrics.total_nodes_ever, 1);
}

#[test]
fn trace_logs_and_forwards() {
    let mut rt = Runtime::new();
    let net = Network::new(&mut rt);
    let src = net.source(&mut rt);
    let t = net.trace(&mut rt, src);
    let (_, seen) = net.debug_collect(&mut rt, t);
    src.emit(&mut rt, &num(9));
    assert_eq!(seen.values(&rt), vec![9]);
    assert_eq!(rt.trace_log.len(), 1);
    assert!(matches!(rt.trace_log[0], Value::Num(9)));
    assert!(rt.stack.is_empty());
}

#[test]
fn collector_emits_whole_record() {
    let mut rt = Runtime::new();
    let net = Network::new(&mut rt);
    let src = net.source(&mut rt);
    let (records, _) = net.debug_collect(&mut rt, src);
    let t = net.trace(&mut rt, records);
    let _ = t;
    src.emit(&mut rt, &num(1));
    src.emit(&mut rt, &num(2));
    assert_eq!(rt.trace_log.len(), 2);
    match &rt.trace_log[1] {
        Value::Record(v) => assert_eq!(v, &vec![1, 2]),
        Value::Num(_) => panic!("expected a record"),
    }
}

#[test]
fn map_ignores_records() {
    let mut rt = Runtime::new();
    let net = Network::new(&mut rt);
    let src = net.source(&mut rt);
    let m = net.map(&mut rt, src, plus_one());
    let (_, seen) = net.debug_collect(&mut rt, m);
    src.emit(&mut rt, &Value::Record(vec![1]));
    assert_eq!(seen.values(&rt), Vec::<u64>::new());
}

#[test]
fn connect_roles() {
    let mut rt = Runtime::new();
    let net = Network::new(&mut rt);
    let p = net.source(&mut rt);
    let c = net.source(&mut rt);
    rt.connect(InputType::from(ListenAndSample(p.id)), c.id);
    rt.connect(InputType::from(Sample(p.id)), c.id);
    rt.connect(InputType::from(Listen(p.id)), c.id);
    let d = &rt.nodes[p.id.index].data;
    assert_eq!(d.outputs.len(), 2);
    assert_eq!(d.outputs[0], Edge { target: c.id, is_sampler: true });
    assert_eq!(d.outputs[1], Edge { target: c.id, is_sampler: false });
    assert_eq!(d.sampler_outputs.len(), 1);
    assert_eq!(d.sampler_count, 2);
    assert_eq!(rt.nodes[c.id.index].data.inputs, vec![p.id, p.id, p.id]);
    let dead = NodeId { index: 77, generation: 1 };
    rt.connect(InputType::Listen(dead), c.id);
    assert_eq!(rt.nodes[c.id.index].data.inputs.len(), 3);
    rt.connect(InputType::Sample(p.id), dead);
    let d = &rt.nodes[p.id.index].data;
    assert_eq!(d.outputs.len(), 2);
    assert_eq!(d.sampler_outputs.len(), 1);
    assert_eq!(d.sampler_count, 2);
}

#[test]
fn map_of_dead_input_has_no_inputs() {
    let mut rt = Runtime::new();
    let net = Network::new(&mut rt);
    let other = Network::new(&mut rt);
    let gone = other.source(&mut rt);
    other.release(&mut rt);
    let m = net.map(&mut rt, gone, plus_one());
    assert!(rt.nodes[m.id.index].data.inputs.is_empty());
    assert_eq!(rt.network_count(), 1);
}

#[test]
fn input_type_roles() {
    let l = InputType::Listen(1u8);
    let s = InputType::Sample(2u8);
    let b = InputType::ListenAndSample(3u8);
    assert!(l.is_listener() && !l.is_sampler());
    assert!(!s.is_listener() && s.is_sampler());
    assert!(b.is_listener() && b.is_sampler());
    assert_eq!((l.value(), s.value(), b.value()), (1, 2, 3));
}

#[test]
fn functions_wrap_around() {
    assert_eq!(UnaryFn { mul: 3, add: 1 }.apply(5), 16);
    assert_eq!(UnaryFn { mul: 2, add: 0 }.apply(u64::MAX), u64::MAX - 1);
    assert_eq!(BinaryFn { a: 10, b: 1, c: 0 }.apply(3, 2), 32);
    assert_eq!(BinaryFn { a: 1, b: 1, c: 1 }.apply(u64::MAX, 0), 0);
}

#[test]
fn value_copies_are_equal() {
    match Value::Record(vec![4, 5]).duplicate() {
        Value::Record(v) => assert_eq!(v, vec![4, 5]),
        Value::Num(_) => panic!("expected a record"),
    }
}

#[test]
fn cycles_stop_at_the_depth_bound() {
    let mut rt = Runtime::new();
    let net = Network::new(&mut rt);
    let src = net.source(&mut rt);
    let m = net.map(&mut rt, src, plus_one());
    let (_, seen) = net.debug_collect(&mut rt, m);
    rt.connect(InputType::Listen(m.id), m.id);
    src.emit(&mut rt, &num(0));
    let values = seen.values(&rt);
    assert_eq!(values.len(), frp2::runtime::MAX_DEPTH - 1);
    assert_eq!(values[0], 1);
    assert_eq!(values[values.len() - 1], (frp2::runtime::MAX_DEPTH - 1) as u64);
    assert!(rt.stack.is_empty());
}
