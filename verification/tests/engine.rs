use cycbox::engine::connection::{ConnectAction, ConnectEvent, ReconnectState};
use cycbox::engine::connection::{handle_highlight_command, wants_transform, CommandReply, ConnectionCommand};
use cycbox::engine::scheduling::{route_outgoing, send_batch_action, SendBatchAction};
use cycbox::engine::script::{connection_setting, script_log_entry, send_after_message};
use cycbox::engine::connection::{finish_sent, frame_for_send};
use cycbox::engine::connection::{
    fast_path_action, finish_received, next_backoff, slow_backoff_ms, DrainOutcome, FastPathAction, Outbox, SendOutcome,
};
use cycbox::engine::control::{take_auto_response, EngineControl, EngineError, ManifestInfo};
use cycbox::engine::log::{LogBook, LogLevel};
use cycbox::engine::scheduling::{
    delay_plan, last_response, route_command, route_send, CommandRoute, DelayPlan, DelayQueue, DelayStep, RepeatCursor, SendRoute,
    SYSTEM_CONNECTION_ID,
};
use cycbox::formatter::terminal::TextEncoding;
use cycbox::message::{Color, Message, MessageType, PayloadType, Value, ValueType};

fn msg(ts: u64) -> Message {
    Message::tx(0, PayloadType::Binary, vec![ts as u8], Vec::new(), ts)
}

#[test]
fn log_level_prefix_and_color() {
    assert_eq!(LogLevel::Info.prefix(), "INFO");
    assert_eq!(LogLevel::Warning.prefix(), "WARN");
    assert_eq!(LogLevel::Error.prefix(), "ERROR");
    assert_eq!(LogLevel::Debug.prefix(), "DEBUG");
    assert_eq!(LogLevel::Error.color(), Color::Error);
    assert_eq!(LogLevel::Info.color(), Color::Primary);
}

#[test]
fn log_book_keeps_thirty_lines() {
    let mut book = LogBook::new(false);
    for i in 0..35u32 {
        let text = format!("m{i}");
        let m = book.log(LogLevel::Info, b"12:00", text.as_bytes(), 7).expect("logged");
        assert_eq!(m.message_type, MessageType::Log);
    }
    assert_eq!(book.lines.len(), 30);
    assert_eq!(book.lines[0], b"12:00: [INFO] m5".to_vec());
    assert_eq!(book.lines[29], b"12:00: [INFO] m34".to_vec());
    assert!(book.log(LogLevel::Debug, b"t", b"hidden", 0).is_none());
    assert_eq!(book.lines.len(), 30);
    let warn = book.log(LogLevel::Warning, b"t", b"careful", 1).unwrap();
    assert_eq!(warn.contents[0].payload, b"[WARN] careful".to_vec());
    assert!(warn.contents[0].decoration.bold);
    book.clear();
    assert!(book.lines.is_empty());
}

#[test]
fn outbox_drops_oldest_and_warns_once() {
    let mut outbox = Outbox::new();
    let mut warned = 0;
    for i in 0..70u64 {
        let r = outbox.enqueue(msg(i));
        if r.warn_depth.is_some() {
            warned += 1;
            assert_eq!(r.warn_depth, Some(9));
        }
        assert_eq!(r.dropped_oldest, i >= 64);
    }
    assert_eq!(warned, 1);
    assert_eq!(outbox.queue.len(), 64);
    assert_eq!(outbox.queue[0].timestamp, 6);
    let front = outbox.take_front().unwrap();
    assert_eq!(front.timestamp, 6);
    assert_eq!(outbox.settle(front, SendOutcome::Pending), DrainOutcome::Idle);
    assert_eq!(outbox.queue[0].timestamp, 6);
    let front = outbox.take_front().unwrap();
    assert_eq!(
        outbox.settle(front, SendOutcome::Failed { reconnectable: true, slow: true }),
        DrainOutcome::ReconnectSlowly
    );
    let front = outbox.take_front().unwrap();
    assert_eq!(outbox.settle(front, SendOutcome::Discarded), DrainOutcome::Idle);
    assert_eq!(outbox.queue[0].timestamp, 7);
    assert_eq!(outbox.clear_on_reconnect(), 63);
}

#[test]
fn fast_path_and_backoff() {
    assert_eq!(fast_path_action(SendOutcome::Sent), FastPathAction::Confirm);
    assert_eq!(fast_path_action(SendOutcome::Pending), FastPathAction::Enqueue);
    assert_eq!(
        fast_path_action(SendOutcome::Failed { reconnectable: false, slow: true }),
        FastPathAction::ReportError
    );
    assert_eq!(next_backoff(1000), 2000);
    assert_eq!(next_backoff(8000), 10000);
    assert_eq!(slow_backoff_ms(999_999_999), 30000 + 999_999_999 % 15000);
}

#[test]
fn received_messages_get_display_and_connection() {
    let mut m = Message::rx(PayloadType::Binary, b"hi".to_vec(), b"hi".to_vec(), 0);
    finish_received(&mut m, 3, TextEncoding::Utf8, &None);
    assert_eq!(m.connection_id, 3);
    assert_eq!(m.contents[0].payload, b"hi".to_vec());
    assert!(!m.hex_contents.is_empty());
}

#[test]
fn scheduling_decisions() {
    assert_eq!(delay_plan(0, true), DelayPlan::Skip);
    assert_eq!(delay_plan(500, true), DelayPlan::HighRes);
    assert_eq!(delay_plan(500, false), DelayPlan::Sleep);
    assert_eq!(delay_plan(5000, false), DelayPlan::Sleep);
    assert_eq!(delay_plan(0, false), DelayPlan::Skip);
    assert_eq!(delay_plan(2_000_000, false), DelayPlan::Sleep);
    assert_eq!(route_send(10_000, 1, 9_000, 2), SendRoute::Delay);
    assert_eq!(route_send(9_500, 1, 9_000, 2), SendRoute::Direct(1));
    assert_eq!(route_send(9_500, 5, 9_000, 2), SendRoute::Drop);
    assert_eq!(route_command(SYSTEM_CONNECTION_ID, 2), CommandRoute::Broadcast);
    assert_eq!(route_command(1, 2), CommandRoute::One(1));
    assert_eq!(route_command(2, 2), CommandRoute::NotFound);
    let r = last_response(vec![Some(msg(1)), Some(msg(2)), None]).unwrap();
    assert_eq!(r.timestamp, 2);
    assert!(last_response(vec![None, None]).is_none());
}

#[test]
fn delay_queue_hands_out_earliest() {
    let mut q = DelayQueue::new();
    assert!(matches!(q.next_step(0), DelayStep::Idle));
    q.schedule(msg(300));
    q.schedule(msg(100));
    q.schedule(msg(200));
    match q.next_step(50) {
        DelayStep::Wait(w) => assert_eq!(w, 50),
        _ => panic!("expected a wait"),
    }
    match q.next_step(250) {
        DelayStep::Send(m) => assert_eq!(m.timestamp, 100),
        _ => panic!("expected a send"),
    }
    match q.next_step(250) {
        DelayStep::Send(m) => assert_eq!(m.timestamp, 200),
        _ => panic!("expected a send"),
    }
    assert_eq!(q.pending.len(), 1);
}

#[test]
fn engine_control_lifecycle() {
    let mut c = EngineControl::new(ManifestInfo { lua_script: None, config_count: 2 }, "-- default".to_string());
    assert_eq!(c.lua_script.as_deref(), Some("-- default"));
    assert_eq!(c.start_batch(), Err(EngineError::NotRunning));
    let plan = c.start(None).ok().unwrap();
    assert_eq!(plan.connections, 2);
    assert_eq!(plan.lua_code, "-- default");
    assert!(matches!(c.start(None), Err(EngineError::AlreadyRunning)));
    assert_eq!(c.start_batch(), Ok(1));
    assert_eq!(c.start_batch(), Ok(2));
    assert_eq!(c.start_batch(), Ok(3));
    assert_eq!(c.stop_batches(&vec![2, 9]), vec![2]);
    assert_eq!(c.batches, vec![1, 3]);
    assert_eq!(c.set_lua(None, Some(false), false).as_deref(), Some(""));
    assert_eq!(c.set_lua(Some("x = 1".to_string()), None, false), None);
    assert_eq!(c.set_lua(None, Some(true), true).as_deref(), Some("x = 1"));
    assert_eq!(c.stop(), vec![1, 3]);
    assert!(!c.running);
    assert_eq!(c.connection_count, 0);
}

#[test]
fn auto_response_is_taken_out() {
    let mut m = Message::rx(PayloadType::Binary, Vec::new(), Vec::new(), 0);
    m.connection_id = 4;
    m.metadata.push(Value { id: "auto_response".to_string(), timestamp: 0, value_type: ValueType::String, value_payload: vec![1, 2] });
    m.metadata.push(Value { id: "other".to_string(), timestamp: 0, value_type: ValueType::UInt8, value_payload: vec![3] });
    let (bytes, id) = take_auto_response(&mut m).unwrap();
    assert_eq!(bytes, vec![1, 2]);
    assert_eq!(id, 4);
    assert_eq!(m.metadata.len(), 1);
    assert!(take_auto_response(&mut m).is_none());
}

#[test]
fn script_log_levels_and_text() {
    let (l, t) = script_log_entry(Some("warn".to_string()), Some("hi".to_string()));
    assert_eq!(l, LogLevel::Warning);
    assert_eq!(t, "[Lua] hi");
    let (l, t) = script_log_entry(None, None);
    assert_eq!(l, LogLevel::Info);
    assert_eq!(t, "[Lua] <nil>");
    assert_eq!(script_log_entry(Some("debug".to_string()), None).0, LogLevel::Debug);
    assert_eq!(script_log_entry(Some("error".to_string()), None).0, LogLevel::Error);
    assert_eq!(script_log_entry(Some("WARN".to_string()), None).0, LogLevel::Info);
}

#[test]
fn send_after_schedules_from_now() {
    assert!(send_after_message(None, 250, None, 1_000_000).is_none());
    let m = send_after_message(Some(b"ping".to_vec()), 250, None, 1_000_000).unwrap();
    assert_eq!(m.timestamp, 1_250_000);
    assert_eq!(m.connection_id, 0);
    assert_eq!(m.message_type, MessageType::Tx);
    assert_eq!(m.payload, b"ping".to_vec());
    let m = send_after_message(Some(Vec::new()), 0, Some(3), 42).unwrap();
    assert_eq!(m.timestamp, 42);
    assert_eq!(m.connection_id, 3);
}

#[test]
fn connection_settings_default_to_empty() {
    let v = vec!["serial".to_string(), "tcp".to_string()];
    assert_eq!(connection_setting(&v, 1), "tcp");
    assert_eq!(connection_setting(&v, 2), "");
}

#[test]
fn sending_fills_frame_and_confirms() {
    let mut m = Message::tx(2, PayloadType::Binary, b"hi".to_vec(), Vec::new(), 7);
    frame_for_send(&mut m);
    assert_eq!(m.frame, b"hi".to_vec());
    let mut framed = Message::tx(2, PayloadType::Binary, b"hi".to_vec(), b"<hi>".to_vec(), 7);
    frame_for_send(&mut framed);
    assert_eq!(framed.frame, b"<hi>".to_vec());
    m.values.push(Value { id: "x".to_string(), timestamp: 0, value_type: ValueType::UInt8, value_payload: vec![1] });
    let c = finish_sent(m, 4, TextEncoding::Utf8, &Some(b"h".to_vec()), 99);
    assert_eq!(c.message_type, MessageType::Tx);
    assert_eq!(c.connection_id, 4);
    assert_eq!(c.timestamp, 99);
    assert_eq!(c.frame, b"hi".to_vec());
    assert_eq!(c.payload, b"hi".to_vec());
    assert!(c.values.is_empty());
    assert!(!c.contents.is_empty());
    assert!(!c.hex_contents.is_empty());
    assert!(c.highlighted);
}

#[test]
fn set_manifest_replaces_script_and_configs() {
    let mut c = EngineControl::new(ManifestInfo { lua_script: None, config_count: 1 }, "-- default".to_string());
    c.set_manifest(ManifestInfo { lua_script: Some("y = 2".to_string()), config_count: 3 });
    assert!(!c.running);
    let plan = c.start(None).ok().unwrap();
    assert_eq!(plan.connections, 3);
    assert_eq!(plan.lua_code, "y = 2");
}

#[test]
fn repeat_cursor_cycles_through_the_batch() {
    let mut c = RepeatCursor::new(3);
    let order: Vec<Option<usize>> = (0..7).map(|_| c.advance()).collect();
    assert_eq!(order, vec![Some(0), Some(1), Some(2), Some(0), Some(1), Some(2), Some(0)]);
    let mut empty = RepeatCursor::new(0);
    assert_eq!(empty.advance(), None);
    assert_eq!(empty.advance(), None);
}

#[test]
fn sends_are_refused_while_stopped() {
    assert_eq!(send_batch_action(false), SendBatchAction::Refuse);
    assert_eq!(send_batch_action(true), SendBatchAction::HookThenRoute);
    let m = Message::tx(0, PayloadType::Binary, vec![1], Vec::new(), 1_000);
    assert_eq!(route_outgoing(false, &m, 1_000, 2), SendRoute::Drop);
    assert_eq!(route_outgoing(true, &m, 1_000, 2), SendRoute::Direct(0));
    let later = Message::tx(1, PayloadType::Binary, vec![1], Vec::new(), 2_000);
    assert_eq!(route_outgoing(true, &later, 1_000, 2), SendRoute::Delay);
    let far = Message::tx(5, PayloadType::Binary, vec![1], Vec::new(), 1_000);
    assert_eq!(route_outgoing(true, &far, 1_000, 2), SendRoute::Drop);
}

#[test]
fn reconnect_policy_backs_off_and_resets() {
    let mut s = ReconnectState::new();
    assert_eq!(s.step(ConnectEvent::Attempt), ConnectAction::Connect);
    let fail = ConnectEvent::TransportFailed { reconnectable: true, slow: false, subsec_nanos: 0 };
    assert_eq!(s.step(fail), ConnectAction::Retry);
    assert_eq!(s.step(ConnectEvent::Attempt), ConnectAction::WaitThenConnect(1000));
    assert_eq!(s.step(fail), ConnectAction::Retry);
    assert_eq!(s.step(ConnectEvent::Attempt), ConnectAction::WaitThenConnect(2000));
    assert_eq!(s.step(ConnectEvent::Connected), ConnectAction::Run);
    assert_eq!(s.backoff_ms, 1000);
    assert_eq!(s.step(ConnectEvent::SessionEnded { slow: true, subsec_nanos: 16_000 }), ConnectAction::Retry);
    assert_eq!(s.step(ConnectEvent::Attempt), ConnectAction::WaitThenConnect(31_000));
    assert_eq!(s.backoff_ms, 10_000);
    let fatal = ConnectEvent::TransportFailed { reconnectable: false, slow: false, subsec_nanos: 0 };
    assert_eq!(s.step(fatal), ConnectAction::Stop);
    assert_eq!(s.step(ConnectEvent::CodecFailed), ConnectAction::Stop);
    assert_eq!(s.step(ConnectEvent::TransformerFailed), ConnectAction::Stop);
    assert_eq!(s.step(ConnectEvent::Cancelled), ConnectAction::Stop);
}

#[test]
fn highlight_commands_and_transform_choice() {
    let mut h: Option<Vec<u8>> = None;
    assert_eq!(handle_highlight_command(ConnectionCommand::SetHighlight(None), &mut h), CommandReply::MissingBytes);
    assert!(h.is_none());
    assert_eq!(handle_highlight_command(ConnectionCommand::SetHighlight(Some(vec![1, 2])), &mut h), CommandReply::Success);
    assert_eq!(h, Some(vec![1, 2]));
    assert_eq!(handle_highlight_command(ConnectionCommand::Other, &mut h), CommandReply::Forward);
    assert_eq!(h, Some(vec![1, 2]));
    assert_eq!(handle_highlight_command(ConnectionCommand::ClearHighlight, &mut h), CommandReply::Success);
    assert!(h.is_none());
    let mut m = Message::rx(PayloadType::Binary, vec![1], vec![1], 0);
    assert!(wants_transform(true, &m));
    assert!(!wants_transform(false, &m));
    m.values.push(Value { id: "a".to_string(), timestamp: 0, value_type: ValueType::UInt8, value_payload: vec![1] });
    assert!(!wants_transform(true, &m));
}

#[test]
fn log_book_keeps_the_last_thirty_in_order() {
    let mut book = LogBook::new(false);
    for i in 0..35 {
        let _ = book.log(LogLevel::Info, b"t", format!("m{i}").as_bytes(), 0);
        let _ = book.log(LogLevel::Debug, b"t", b"hidden", 0);
    }
    assert_eq!(book.lines.len(), 30);
    assert_eq!(book.lines[0], b"t: [INFO] m5".to_vec());
    assert_eq!(book.lines[29], b"t: [INFO] m34".to_vec());
}

#[test]
fn log_now_stamps_with_local_time() {
    let mut book = LogBook::new(true);
    let m = book.log_now(LogLevel::Warning, b"hot").unwrap();
    assert_eq!(m.contents[0].payload, b"[WARN] hot".to_vec());
    let line = String::from_utf8(book.lines[0].clone()).unwrap();
    assert!(line.ends_with(": [WARN] hot"));
    assert_eq!(line.len(), "2024-01-01 00:00:00.000: [WARN] hot".len());
}
