use relayer::link::{Chain, Datagram, Link, LinkConfig, Order};

#[test]
fn default_link_config_is_empty_and_unordered() {
    let config = LinkConfig::default();
    assert_eq!(config.src_config.chain_id, 0);
    assert_eq!(config.src_config.client_id, "");
    assert_eq!(config.src_config.channel_id, "");
    assert_eq!(config.src_config.port_id, "");
    assert_eq!(config.dst_config.chain_id, 0);
    assert_eq!(config.dst_config.client_id, "");
    assert_eq!(config.order, Order::Unordered);
}

#[test]
fn new_link_keeps_both_chains() {
    let src = Chain::new(1);
    let dst = Chain::new(2);
    let link = Link::new(src, dst, LinkConfig::default()).unwrap();
    assert_eq!(link.src_chain.chain_id, 1);
    assert_eq!(link.dst_chain.chain_id, 2);
    assert!(link.dst_chain.submitted.is_empty());
}

#[test]
fn run_submits_every_batch_in_order() {
    let src = Chain::new(1);
    let dst = Chain::new(2);
    let link = Link::new(src, dst, LinkConfig::default()).unwrap();
    let subscription = vec![
        vec![Datagram::NoOp],
        vec![],
        vec![Datagram::NoOp, Datagram::NoOp],
    ];
    let dst_after = link.run(subscription);
    assert_eq!(dst_after.chain_id, 2);
    assert_eq!(dst_after.submitted.len(), 3);
}

#[test]
fn pending_datagrams_reports_a_single_noop() {
    let src = Chain::new(1);
    let dst = Chain::new(2);
    let link = Link::new(src, dst, LinkConfig::default()).unwrap();
    let pending = link.pending_datagrams();
    assert_eq!(pending, vec![Datagram::NoOp]);
}

#[test]
fn submit_appends_to_the_chain() {
    let mut chain = Chain::new(7);
    chain.submit(vec![Datagram::NoOp]);
    chain.submit(vec![Datagram::NoOp, Datagram::NoOp]);
    assert_eq!(chain.submitted.len(), 3);
    let header = chain.get_header(42);
    assert_eq!(header.height, 42);
}
