use rs_proxy::client::tcpmux_client::{
    connect_request, ConnectionPool, InboundAction, TcpMuxChannel, TcpMuxHandle,
};
use rs_proxy::commons::tcpmux_comm::{decode, Msg};
use rs_proxy::error::ProxyError;
use rs_proxy::server::tcpmux_server::{dispatch, target_host, ServerAction};

#[test]
fn empty_pool_gives_nothing() {
    let mut pool: ConnectionPool<u8> = ConnectionPool::new();
    assert_eq!(pool.get(), None);
    assert!(matches!(TcpMuxHandle.pick_channel(&mut pool), Err(ProxyError::NoConnection)));
}

#[test]
fn single_connection_always_given() {
    let mut pool = ConnectionPool::new();
    pool.put(10, "a");
    assert_eq!(pool.get(), Some("a"));
    assert_eq!(pool.get(), Some("a"));
}

#[test]
fn connections_given_in_turn() {
    let mut pool = ConnectionPool::new();
    pool.put(1, 'a');
    pool.put(2, 'b');
    pool.put(3, 'c');
    let got: Vec<char> = (0..7).map(|_| pool.get().unwrap()).collect();
    assert_eq!(got, vec!['b', 'c', 'a', 'b', 'c', 'a', 'b']);
}

#[test]
fn remove_moves_last_into_place() {
    let mut pool = ConnectionPool::new();
    pool.put(1, 'a');
    pool.put(2, 'b');
    pool.put(3, 'c');
    assert!(pool.remove(&1).is_ok());
    // keys are now [3, 2]; the counter is 0, so the next pick is position 1
    assert_eq!(pool.get(), Some('b'));
    assert_eq!(pool.get(), Some('c'));
    assert!(pool.remove(&99).is_ok());
    assert_eq!(pool.get(), Some('b'));
}

#[test]
fn remove_undoes_put() {
    let mut pool = ConnectionPool::new();
    pool.put(1, 'a');
    pool.put(2, 'b');
    assert!(pool.remove(&2).is_ok());
    assert_eq!(pool.get(), Some('a'));
    assert_eq!(pool.get(), Some('a'));
}

#[test]
fn pick_channel_takes_from_pool() {
    let mut pool = ConnectionPool::new();
    pool.put(4, 40u32);
    assert!(matches!(TcpMuxHandle.pick_channel(&mut pool), Ok(40)));
}

#[test]
fn channel_table_register_and_remove() {
    let mut table: TcpMuxChannel<&str> = TcpMuxChannel::new(4096);
    assert_eq!(table.buff_size(), 4096);
    assert!(table.register(7, "pipe").is_ok());
    assert_eq!(table.get(7), Some(&"pipe"));
    assert_eq!(table.remove(7, true), None);
    assert_eq!(table.get(7), Some(&"pipe"));
    assert_eq!(table.remove(7, false), Some(vec![0x01, 0, 0, 0, 7]));
    assert_eq!(table.get(7), None);
    assert_eq!(table.remove(7, false), None);
}

#[test]
fn closed_table_refuses_channels() {
    let mut table: TcpMuxChannel<u8> = TcpMuxChannel::new(1);
    table.register(1, 1).unwrap();
    table.close();
    assert_eq!(table.get(1), None);
    assert!(matches!(table.register(2, 2), Err(ProxyError::Register)));
    assert_eq!(table.get(2), None);
}

#[test]
fn inbound_messages_on_client() {
    let mut table: TcpMuxChannel<u8> = TcpMuxChannel::new(1);
    table.register(1, 9).unwrap();
    assert_eq!(table.handle_inbound(&Msg::Data(1, &[1])).unwrap(), InboundAction::Forward(1));
    assert_eq!(table.handle_inbound(&Msg::Data(2, &[1])).unwrap(), InboundAction::Dropped(2));
    assert_eq!(table.handle_inbound(&Msg::Disconnect(1)).unwrap(), InboundAction::Closed(1));
    assert_eq!(table.get(1), None);
    assert!(matches!(
        table.handle_inbound(&Msg::Connect(3, (vec![], 1))),
        Err(ProxyError::MessageType)
    ));
}

#[test]
fn inbound_messages_on_server() {
    let mut table: TcpMuxChannel<u8> = TcpMuxChannel::new(1);
    assert_eq!(dispatch(&mut table, &Msg::Connect(5, (b"h".to_vec(), 1))), ServerAction::Open(5));
    assert_eq!(table.get(5), None);
    table.register(5, 1).unwrap();
    assert_eq!(dispatch(&mut table, &Msg::Data(5, &[0])), ServerAction::Forward(5));
    assert_eq!(dispatch(&mut table, &Msg::Data(6, &[0])), ServerAction::Dropped(6));
    assert_eq!(dispatch(&mut table, &Msg::Disconnect(5)), ServerAction::Closed(5));
    assert_eq!(table.get(5), None);
}

#[test]
fn connect_request_encodes_its_id() {
    let request = connect_request((b"x.y".to_vec(), 9));
    let id = request.channel_id();
    let bytes = request.connect_message().clone();
    match decode(&bytes) {
        Ok(Msg::Connect(got, (host, port))) => {
            assert_eq!(got, id);
            assert_eq!(host, b"x.y".to_vec());
            assert_eq!(port, 9);
        }
        _ => panic!("not a connect message"),
    }
}

#[test]
fn target_host_must_be_utf8() {
    assert_eq!(target_host(&(b"abc".to_vec(), 1)).unwrap(), "abc");
    assert!(matches!(target_host(&(vec![0xC0], 1)), Err(ProxyError::InvalidUtf8)));
}

#[test]
fn open_channel_registers_the_announced_id() {
    let mut table: TcpMuxChannel<u8> = TcpMuxChannel::new(16);
    let request = connect_request((b"host".to_vec(), 443));
    let id = request.channel_id();
    match decode(request.connect_message()) {
        Ok(Msg::Connect(got, _)) => assert_eq!(got, id),
        _ => panic!("not a connect message"),
    }
    assert!(table.open_channel(&request, 3).is_ok());
    assert_eq!(table.get(id), Some(&3));
    table.close();
    let again = connect_request((b"host".to_vec(), 443));
    assert!(matches!(table.open_channel(&again, 4), Err(ProxyError::Register)));
}

#[test]
fn closing_a_channel_twice_sends_one_disconnect() {
    let mut table: TcpMuxChannel<u8> = TcpMuxChannel::new(16);
    table.register(42, 1).unwrap();
    table.register(43, 2).unwrap();
    assert_eq!(table.remove(42, false), Some(vec![0x01, 0, 0, 0, 42]));
    assert_eq!(table.remove(42, false), None);
    assert_eq!(table.get(43), Some(&2));
    assert_eq!(table.get(42), None);
}

#[test]
fn every_connection_once_after_a_removal() {
    let mut pool: ConnectionPool<u32> = ConnectionPool::new();
    pool.put(1, 10);
    pool.put(2, 20);
    pool.put(3, 30);
    assert_eq!(pool.get(), Some(20));
    assert_eq!(pool.get(), Some(30));
    pool.remove(&1).unwrap();
    let mut seen = vec![pool.get().unwrap(), pool.get().unwrap()];
    seen.sort();
    assert_eq!(seen, vec![20, 30]);
}
