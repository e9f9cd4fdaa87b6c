use relayer::cmd::{CmdEffect, SupervisorCmd};
use relayer::config::{ChainConfig, ChannelFilterEntry, Config};
use relayer::errors::Error;
use relayer::events::{
    ChannelAttributes, ConnectionAttributes, EventBatch, IbcEvent, PacketAttributes,
    UpdateClientAttributes,
};
use relayer::handle::{ChainHandle, ChannelClientEntry};
use relayer::ids::{ChainId, ChannelId, ClientId, Height, PortId};
use relayer::object::Object;
use relayer::supervisor::Supervisor;
use relayer::worker::{WorkerInput, WorkerMsg};

fn cid(s: &str) -> ChainId {
    ChainId::new(s.to_string())
}

fn port(s: &str) -> PortId {
    PortId::new(s.to_string())
}

fn chan(s: &str) -> ChannelId {
    ChannelId::new(s.to_string())
}

fn clid(s: &str) -> ClientId {
    ClientId::new(s.to_string())
}

fn chain_cfg(id: &str, filters: Vec<(&str, &str)>) -> ChainConfig {
    ChainConfig {
        id: cid(id),
        rpc_endpoint: format!("http://{}.local:26657", id),
        grpc_endpoint: format!("http://{}.local:9090", id),
        key_name: format!("{}-key", id),
        channel_filters: filters
            .into_iter()
            .map(|(p, c)| ChannelFilterEntry { port_id: port(p), channel_id: chan(c) })
            .collect(),
    }
}

fn handle_a() -> ChainHandle {
    ChainHandle::new(
        cid("chain-a"),
        vec![ChannelClientEntry {
            port_id: port("transfer"),
            channel_id: chan("channel-0"),
            client_id: clid("07-tendermint-3"),
            counterparty_chain_id: cid("chain-b"),
        }],
    )
}

fn send_packet_event() -> IbcEvent {
    IbcEvent::SendPacket(PacketAttributes {
        sequence: 1,
        source_port: port("transfer"),
        source_channel: chan("channel-0"),
        destination_port: port("transfer"),
        destination_channel: chan("channel-7"),
    })
}

fn batch_a(height: Height, events: Vec<IbcEvent>) -> EventBatch {
    EventBatch { chain_id: cid("chain-a"), height, events }
}

fn two_chain_supervisor(filter: bool, a_filters: Vec<(&str, &str)>, handshake: bool) -> Supervisor {
    let config = Config::new(
        vec![chain_cfg("chain-a", a_filters), chain_cfg("chain-b", vec![])],
        filter,
        handshake,
    );
    Supervisor::new(config)
}

fn packet_object_ab() -> Object {
    Object::Packet {
        dst_chain_id: cid("chain-b"),
        src_chain_id: cid("chain-a"),
        src_channel_id: chan("channel-0"),
        src_port_id: port("transfer"),
    }
}

#[test]
fn send_packet_on_allowed_channel_spawns_packet_worker() {
    let mut sup = two_chain_supervisor(true, vec![("transfer", "channel-0")], true);
    let src = handle_a();
    let batch = batch_a(Height::new(0, 100), vec![send_packet_event()]);
    sup.process_batch(&src, batch).unwrap();
    assert_eq!(sup.workers.workers.len(), 1);
    let w = &sup.workers.workers[0];
    assert!(w.object.same(&packet_object_ab()));
    assert_eq!(w.inbox.len(), 1);
    match &w.inbox[0] {
        WorkerInput::Events { height, chain_id, events } => {
            assert_eq!(height.revision, 0);
            assert_eq!(height.height, 100);
            assert!(chain_id.same(&cid("chain-a")));
            assert_eq!(events.len(), 1);
        }
        other => panic!("expected an events input, got {:?}", other),
    }
}

#[test]
fn send_packet_on_filtered_out_channel_spawns_nothing() {
    let mut sup = two_chain_supervisor(true, vec![("transfer", "channel-1")], true);
    let src = handle_a();
    let batch = batch_a(Height::new(0, 100), vec![send_packet_event()]);
    sup.process_batch(&src, batch).unwrap();
    assert!(sup.workers.workers.is_empty());
}

#[test]
fn send_packet_with_filter_off_is_always_relayed() {
    let mut sup = two_chain_supervisor(false, vec![], true);
    let src = handle_a();
    let batch = batch_a(Height::new(0, 100), vec![send_packet_event()]);
    sup.process_batch(&src, batch).unwrap();
    assert_eq!(sup.workers.workers.len(), 1);
}

#[test]
fn open_ack_channel_spawns_client_packet_and_channel_workers() {
    let mut sup = two_chain_supervisor(false, vec![], true);
    let src = handle_a();
    let ack = IbcEvent::OpenAckChannel(ChannelAttributes {
        port_id: port("transfer"),
        channel_id: Some(chan("channel-0")),
    });
    let batch = batch_a(Height::new(0, 50), vec![ack]);
    sup.process_batch(&src, batch).unwrap();
    assert_eq!(sup.workers.workers.len(), 3);

    let client_object = Object::Client {
        dst_chain_id: cid("chain-a"),
        dst_client_id: clid("07-tendermint-3"),
        src_chain_id: cid("chain-b"),
    };
    let channel_object = Object::Channel {
        dst_chain_id: cid("chain-b"),
        src_chain_id: cid("chain-a"),
        src_channel_id: chan("channel-0"),
        src_port_id: port("transfer"),
    };
    assert!(sup.workers.contains(&client_object));
    assert!(sup.workers.contains(&packet_object_ab()));
    assert!(sup.workers.contains(&channel_object));
    for w in &sup.workers.workers {
        assert_eq!(w.inbox.len(), 1);
    }
}

#[test]
fn open_ack_channel_without_handshake_still_wakes_client_and_packet() {
    let mut sup = two_chain_supervisor(false, vec![], false);
    let src = handle_a();
    let ack = IbcEvent::OpenAckChannel(ChannelAttributes {
        port_id: port("transfer"),
        channel_id: Some(chan("channel-0")),
    });
    let batch = batch_a(Height::new(0, 50), vec![ack]);
    sup.process_batch(&src, batch).unwrap();
    assert_eq!(sup.workers.workers.len(), 2);
    assert!(sup.workers.contains(&packet_object_ab()));
}

#[test]
fn handshake_disabled_drops_connection_and_channel_opens() {
    let sup = two_chain_supervisor(false, vec![], false);
    let src = handle_a();
    let events = vec![
        IbcEvent::OpenInitConnection(ConnectionAttributes {
            connection_id: Some(relayer::ids::ConnectionId::new("connection-0".to_string())),
            counterparty_chain_id: cid("chain-b"),
        }),
        IbcEvent::OpenTryConnection(ConnectionAttributes {
            connection_id: Some(relayer::ids::ConnectionId::new("connection-1".to_string())),
            counterparty_chain_id: cid("chain-b"),
        }),
        IbcEvent::OpenInitChannel(ChannelAttributes {
            port_id: port("transfer"),
            channel_id: Some(chan("channel-0")),
        }),
        IbcEvent::OpenTryChannel(ChannelAttributes {
            port_id: port("transfer"),
            channel_id: Some(chan("channel-0")),
        }),
    ];
    let collected = sup.collect_events(&src, batch_a(Height::new(0, 10), events));
    assert!(collected.per_object.is_empty());
    assert!(!collected.has_new_block());
}

#[test]
fn update_client_without_worker_is_dropped() {
    let sup = two_chain_supervisor(false, vec![], true);
    let src = handle_a();
    let update = IbcEvent::UpdateClient(UpdateClientAttributes {
        dst_chain_id: cid("chain-b"),
        dst_client_id: clid("07-tendermint-9"),
    });
    let collected = sup.collect_events(&src, batch_a(Height::new(0, 10), vec![update]));
    assert!(collected.per_object.is_empty());
}

#[test]
fn update_client_with_live_worker_is_kept() {
    let mut sup = two_chain_supervisor(false, vec![], true);
    let src = handle_a();
    let object = Object::Client {
        dst_chain_id: cid("chain-b"),
        dst_client_id: clid("07-tendermint-9"),
        src_chain_id: cid("chain-a"),
    };
    let dst = ChainHandle::new(cid("chain-b"), vec![]);
    sup.workers.get_or_spawn(object.clone(), &src, &dst);
    let update = IbcEvent::UpdateClient(UpdateClientAttributes {
        dst_chain_id: cid("chain-b"),
        dst_client_id: clid("07-tendermint-9"),
    });
    let collected = sup.collect_events(&src, batch_a(Height::new(0, 10), vec![update]));
    assert_eq!(collected.per_object.len(), 1);
    assert!(collected.per_object[0].object.same(&object));
    assert_eq!(collected.per_object[0].events.len(), 1);
}

#[test]
fn connection_event_without_id_is_dropped_silently() {
    let sup = two_chain_supervisor(false, vec![], true);
    let src = handle_a();
    let event = IbcEvent::OpenInitConnection(ConnectionAttributes {
        connection_id: None,
        counterparty_chain_id: cid("chain-b"),
    });
    let collected = sup.collect_events(&src, batch_a(Height::new(0, 10), vec![event]));
    assert!(collected.per_object.is_empty());
}

#[test]
fn collect_events_is_pure() {
    let sup = two_chain_supervisor(false, vec![], true);
    let src = handle_a();
    let mk = || batch_a(Height::new(0, 33), vec![send_packet_event(), IbcEvent::NewBlock(Height::new(0, 33))]);
    let c1 = sup.collect_events(&src, mk());
    let c2 = sup.collect_events(&src, mk());
    assert_eq!(c1.per_object.len(), c2.per_object.len());
    assert!(c1.per_object[0].object.same(&c2.per_object[0].object));
    assert_eq!(c1.per_object[0].events.len(), c2.per_object[0].events.len());
    assert_eq!(c1.has_new_block(), c2.has_new_block());
    assert_eq!(c1.height, c2.height);
    assert!(c1.chain_id.same(&c2.chain_id));
}

#[test]
fn new_block_fans_out_after_packet_dispatch() {
    let mut sup = two_chain_supervisor(false, vec![], true);
    let src = handle_a();
    let dst = ChainHandle::new(cid("chain-b"), vec![]);
    let unrelated = Object::Packet {
        dst_chain_id: cid("chain-b"),
        src_chain_id: cid("chain-a"),
        src_channel_id: chan("channel-9"),
        src_port_id: port("other"),
    };
    sup.workers.get_or_spawn(unrelated.clone(), &src, &dst);
    let batch = batch_a(
        Height::new(0, 200),
        vec![send_packet_event(), IbcEvent::NewBlock(Height::new(0, 200))],
    );
    sup.process_batch(&src, batch).unwrap();

    assert_eq!(sup.workers.workers.len(), 2);
    for w in &sup.workers.workers {
        if w.object.same(&packet_object_ab()) {
            assert_eq!(w.inbox.len(), 2);
            assert!(matches!(w.inbox[0], WorkerInput::Events { .. }));
            match &w.inbox[1] {
                WorkerInput::NewBlock { height } => assert_eq!(height.height, 200),
                other => panic!("expected a new-block input, got {:?}", other),
            }
        } else {
            assert!(w.object.same(&unrelated));
            assert_eq!(w.inbox.len(), 1);
            assert!(matches!(w.inbox[0], WorkerInput::NewBlock { .. }));
        }
    }
}

#[test]
fn batch_for_unknown_counterparty_chain_aborts_with_config_error() {
    let config = Config::new(vec![chain_cfg("chain-a", vec![])], false, true);
    let mut sup = Supervisor::new(config);
    let src = handle_a();
    let batch = batch_a(Height::new(0, 5), vec![send_packet_event()]);
    let result = sup.process_batch(&src, batch);
    match result {
        Err(Error::ChainConfigNotFound(id)) => assert!(id.same(&cid("chain-b"))),
        other => panic!("expected a missing-configuration error, got {:?}", other),
    }
}

#[test]
fn stopped_worker_is_removed_from_the_map() {
    let mut sup = two_chain_supervisor(false, vec![], true);
    let src = handle_a();
    let batch = batch_a(Height::new(0, 100), vec![send_packet_event()]);
    sup.process_batch(&src, batch).unwrap();
    assert!(sup.workers.contains(&packet_object_ab()));
    sup.handle_worker_msg(WorkerMsg::Stopped(packet_object_ab()));
    assert!(!sup.workers.contains(&packet_object_ab()));
    assert!(sup.workers.workers.is_empty());
}

#[test]
fn add_chain_is_idempotent() {
    let mut sup = two_chain_supervisor(false, vec![], true);
    let first = sup.add_chain(chain_cfg("chain-c", vec![]), true, &vec![]);
    assert_eq!(first, CmdEffect::ConfigChanged);
    let chains_after = sup.config.chains.len();
    let registry_after = sup.registry.size();
    let second = sup.add_chain(chain_cfg("chain-c", vec![]), true, &vec![]);
    assert_eq!(second, CmdEffect::Nothing);
    assert_eq!(sup.config.chains.len(), chains_after);
    assert_eq!(sup.registry.size(), registry_after);
}

#[test]
fn add_chain_rolls_back_config_when_runtime_fails() {
    let mut sup = two_chain_supervisor(false, vec![], true);
    let effect = sup.add_chain(chain_cfg("chain-c", vec![]), false, &vec![]);
    assert_eq!(effect, CmdEffect::Nothing);
    assert!(!sup.config.has_chain(&cid("chain-c")));
    assert!(!sup.registry.contains(&cid("chain-c")));
}

#[test]
fn add_then_remove_restores_cardinalities() {
    let mut sup = two_chain_supervisor(false, vec![], true);
    sup.init_subscriptions().unwrap();
    let chains_before = sup.config.chains.len();
    let registry_before = sup.registry.size();
    let workers_before = sup.workers.workers.len();

    let candidate = Object::Packet {
        dst_chain_id: cid("chain-a"),
        src_chain_id: cid("chain-c"),
        src_channel_id: chan("channel-2"),
        src_port_id: port("transfer"),
    };
    let added = sup.add_chain(chain_cfg("chain-c", vec![]), true, &vec![candidate]);
    assert_eq!(added, CmdEffect::ConfigChanged);
    assert_eq!(sup.workers.workers.len(), workers_before + 1);
    assert_eq!(sup.registry.size(), registry_before + 1);

    let removed = sup.remove_chain(&cid("chain-c"));
    assert_eq!(removed, CmdEffect::ConfigChanged);
    assert_eq!(sup.config.chains.len(), chains_before);
    assert_eq!(sup.registry.size(), registry_before);
    assert_eq!(sup.workers.workers.len(), workers_before);
}

#[test]
fn remove_chain_drops_every_worker_touching_it() {
    let mut sup = two_chain_supervisor(false, vec![], true);
    let src = handle_a();
    let batch = batch_a(Height::new(0, 100), vec![send_packet_event()]);
    sup.process_batch(&src, batch).unwrap();
    assert_eq!(sup.workers.workers.len(), 1);

    let effect = sup.remove_chain(&cid("chain-a"));
    assert_eq!(effect, CmdEffect::ConfigChanged);
    assert!(sup.workers.workers.is_empty());
    assert!(!sup.registry.contains(&cid("chain-a")));
    assert!(!sup.config.has_chain(&cid("chain-a")));
    assert!(sup.config.has_chain(&cid("chain-b")));
}

#[test]
fn remove_of_absent_chain_is_a_no_op() {
    let mut sup = two_chain_supervisor(false, vec![], true);
    let effect = sup.remove_chain(&cid("chain-z"));
    assert_eq!(effect, CmdEffect::Nothing);
    assert_eq!(sup.config.chains.len(), 2);
}

#[test]
fn update_chain_replaces_the_configuration() {
    let mut sup = two_chain_supervisor(false, vec![], true);
    let mut replacement = chain_cfg("chain-a", vec![("transfer", "channel-4")]);
    replacement.rpc_endpoint = "http://elsewhere:26657".to_string();
    let effect = sup.update_chain(replacement, true, &vec![]);
    assert_eq!(effect, CmdEffect::ConfigChanged);
    let found = sup.config.find_chain(&cid("chain-a")).unwrap();
    assert_eq!(found.rpc_endpoint, "http://elsewhere:26657");
    assert_eq!(found.channel_filters.len(), 1);
}

#[test]
fn init_subscriptions_spawns_every_configured_chain() {
    let mut sup = two_chain_supervisor(false, vec![], true);
    let ids = sup.init_subscriptions().unwrap();
    assert_eq!(ids.len(), 2);
    assert!(ids[0].same(&cid("chain-a")));
    assert!(ids[1].same(&cid("chain-b")));
    assert_eq!(sup.registry.size(), 2);
}

#[test]
fn init_subscriptions_without_chains_reports_none_available() {
    let mut sup = Supervisor::new(Config::new(vec![], false, true));
    match sup.init_subscriptions() {
        Err(Error::NoChainsAvailable) => {}
        other => panic!("expected no chains available, got {:?}", other),
    }
}

#[test]
fn dump_state_sorts_chains_and_groups_workers() {
    let config = Config::new(
        vec![
            chain_cfg("chain-c", vec![]),
            chain_cfg("chain-a", vec![]),
            chain_cfg("chain-b", vec![]),
        ],
        false,
        true,
    );
    let mut sup = Supervisor::new(config);
    sup.init_subscriptions().unwrap();

    let ha = ChainHandle::new(cid("chain-a"), vec![]);
    let hb = ChainHandle::new(cid("chain-b"), vec![]);
    let packet_1 = Object::Packet {
        dst_chain_id: cid("chain-b"),
        src_chain_id: cid("chain-a"),
        src_channel_id: chan("channel-1"),
        src_port_id: port("transfer"),
    };
    let packet_0 = Object::Packet {
        dst_chain_id: cid("chain-b"),
        src_chain_id: cid("chain-a"),
        src_channel_id: chan("channel-0"),
        src_port_id: port("transfer"),
    };
    let client_w = Object::Client {
        dst_chain_id: cid("chain-a"),
        dst_client_id: clid("07-tendermint-3"),
        src_chain_id: cid("chain-b"),
    };
    let channel_w = Object::Channel {
        dst_chain_id: cid("chain-b"),
        src_chain_id: cid("chain-a"),
        src_channel_id: chan("channel-0"),
        src_port_id: port("transfer"),
    };
    sup.workers.get_or_spawn(packet_1.clone(), &ha, &hb);
    sup.workers.get_or_spawn(client_w.clone(), &hb, &ha);
    sup.workers.get_or_spawn(channel_w.clone(), &ha, &hb);
    sup.workers.get_or_spawn(packet_0.clone(), &ha, &hb);

    let st = sup.dump_state();
    let chain_names: Vec<&str> = st.chains.iter().map(|c| c.value.as_str()).collect();
    assert_eq!(chain_names, vec!["chain-a", "chain-b", "chain-c"]);

    assert_eq!(st.clients.len(), 1);
    assert!(st.clients[0].same(&client_w));
    assert!(st.connections.is_empty());
    assert_eq!(st.channels.len(), 1);
    assert!(st.channels[0].same(&channel_w));
    assert_eq!(st.packets.len(), 2);
    assert!(st.packets[0].same(&packet_0));
    assert!(st.packets[1].same(&packet_1));
    assert!(st.packets[0].short_name() < st.packets[1].short_name());
}

#[test]
fn handle_cmd_dump_state_changes_nothing() {
    let mut sup = two_chain_supervisor(false, vec![], true);
    let (effect, state) = sup.handle_cmd(SupervisorCmd::DumpState, true, &vec![]);
    assert_eq!(effect, CmdEffect::Nothing);
    let st = state.expect("a snapshot");
    assert!(st.chains.is_empty());
    assert_eq!(sup.config.chains.len(), 2);
}

#[test]
fn relay_on_channel_follows_the_filter() {
    let sup = two_chain_supervisor(true, vec![("transfer", "channel-0")], true);
    assert!(sup.relay_on_channel(&cid("chain-a"), &port("transfer"), &chan("channel-0")));
    assert!(!sup.relay_on_channel(&cid("chain-a"), &port("transfer"), &chan("channel-1")));
    assert!(!sup.relay_on_channel(&cid("chain-b"), &port("transfer"), &chan("channel-0")));
    let open = two_chain_supervisor(false, vec![], true);
    assert!(open.relay_on_channel(&cid("chain-b"), &port("x"), &chan("y")));
}

#[test]
fn filtered_object_with_live_worker_receives_no_events() {
    let mut sup = two_chain_supervisor(true, vec![("transfer", "channel-1")], true);
    let src = handle_a();
    let dst = ChainHandle::new(cid("chain-b"), vec![]);
    sup.workers.get_or_spawn(packet_object_ab().clone(), &src, &dst);
    let batch = batch_a(Height::new(0, 100), vec![send_packet_event()]);
    sup.process_batch(&src, batch).unwrap();
    assert_eq!(sup.workers.workers.len(), 1);
    assert!(sup.workers.workers[0].inbox.is_empty());
}

#[test]
fn spawn_workers_seeds_admitted_candidates_only() {
    let mut sup = two_chain_supervisor(true, vec![("transfer", "channel-0")], true);
    let admitted = packet_object_ab();
    let rejected = Object::Packet {
        dst_chain_id: cid("chain-b"),
        src_chain_id: cid("chain-a"),
        src_channel_id: chan("channel-3"),
        src_port_id: port("transfer"),
    };
    sup.spawn_workers(&vec![admitted.clone(), rejected.clone()]);
    assert!(sup.workers.contains(&admitted));
    assert!(!sup.workers.contains(&rejected));
    assert!(sup.registry.contains(&cid("chain-a")));
    assert!(sup.registry.contains(&cid("chain-b")));
}

#[test]
fn registry_get_or_spawn_is_idempotent_and_checks_config() {
    let mut sup = two_chain_supervisor(false, vec![], true);
    let first = sup.registry.get_or_spawn(&cid("chain-a"), &sup.config).unwrap();
    let second = sup.registry.get_or_spawn(&cid("chain-a"), &sup.config).unwrap();
    assert!(first.id().same(second.id()));
    assert_eq!(sup.registry.size(), 1);
    match sup.registry.get_or_spawn(&cid("chain-z"), &sup.config) {
        Err(Error::ChainConfigNotFound(id)) => assert!(id.same(&cid("chain-z"))),
        other => panic!("expected a missing-configuration error, got {:?}", other),
    }
}

#[test]
fn write_ack_is_classified_at_the_destination_end() {
    let sup = two_chain_supervisor(false, vec![], true);
    let src = handle_a();
    let ack = IbcEvent::WriteAcknowledgement(PacketAttributes {
        sequence: 4,
        source_port: port("other"),
        source_channel: chan("channel-9"),
        destination_port: port("transfer"),
        destination_channel: chan("channel-0"),
    });
    let collected = sup.collect_events(&src, batch_a(Height::new(0, 12), vec![ack]));
    assert_eq!(collected.per_object.len(), 1);
    assert!(collected.per_object[0].object.same(&packet_object_ab()));
}

#[test]
fn heights_order_lexicographically_revision_major() {
    let a = Height::new(0, 100);
    let b = Height::new(1, 0);
    let c = Height::new(1, 5);
    assert!(a.lt(&b));
    assert!(b.lt(&c));
    assert!(a.lt(&c));
    assert!(!c.lt(&a));
    assert!(!a.lt(&a));
}

#[test]
fn short_name_is_stable_and_readable() {
    let o = Object::Client {
        dst_chain_id: cid("chain-a"),
        dst_client_id: clid("07-tendermint-3"),
        src_chain_id: cid("chain-b"),
    };
    assert_eq!(o.short_name(), "client/chain-a/07-tendermint-3/chain-b");
    let p = packet_object_ab();
    assert_eq!(p.short_name(), "packet/chain-b/chain-a/transfer/channel-0");
}

#[test]
fn last_new_block_wins() {
    let sup = two_chain_supervisor(false, vec![], true);
    let src = handle_a();
    let batch = batch_a(
        Height::new(0, 40),
        vec![
            IbcEvent::NewBlock(Height::new(0, 39)),
            IbcEvent::NewBlock(Height::new(0, 40)),
        ],
    );
    let collected = sup.collect_events(&src, batch);
    assert!(collected.has_new_block());
    match collected.new_block {
        Some(IbcEvent::NewBlock(h)) => assert_eq!(h.height, 40),
        other => panic!("expected the later new-block event, got {:?}", other),
    }
}
