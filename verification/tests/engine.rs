use serial_monitor::engine::{
    parse_data_line, save_message, ControlCommand, Engine, FileOptions, GuiWindow, Print,
    RawTrafficOptions,
};
use serial_monitor::protocol::QcmEvent;
use serial_monitor::store::Packet;

fn packet(payload: &str, rel: u64, abs: u64) -> Packet {
    Packet { payload: payload.to_string(), relative_time: rel, absolute_time: abs }
}

fn feed(engine: &mut Engine, payload: &str) -> serial_monitor::engine::PacketOutcome {
    engine.handle_packet(packet(payload, 1, 2))
}

fn channel_floats(engine: &Engine, i: usize) -> Vec<f64> {
    engine.data.dataset[i].iter().map(|t| t.parse::<f64>().unwrap()).collect()
}

#[test]
fn data_line_parses_into_four_values() {
    let vals = parse_data_line("1,2:3,4");
    let floats: Vec<f64> = vals.iter().map(|t| t.parse::<f64>().unwrap()).collect();
    assert_eq!(floats, vec![1.0, 2.0, 3.0, 4.0]);
}

#[test]
fn data_line_establishes_four_channel_width() {
    let mut engine = Engine::new();
    feed(&mut engine, "1,2:3,4");
    assert_eq!(engine.data.dataset.len(), 4);
    // the resetting line's own values are dropped; the next one is stored
    feed(&mut engine, "1,2:3,4");
    assert_eq!(engine.data.time.len(), 1);
    for i in 0..4 {
        assert_eq!(channel_floats(&engine, i), vec![(i + 1) as f64]);
    }
}

#[test]
fn malformed_tokens_are_dropped_not_the_line() {
    let vals = parse_data_line(" 1 , x : 2.5 ,");
    let floats: Vec<f64> = vals.iter().map(|t| t.parse::<f64>().unwrap()).collect();
    assert_eq!(floats, vec![1.0, 2.5]);
}

#[test]
fn debug_line_logs_and_mutates_nothing() {
    let mut engine = Engine::new();
    feed(&mut engine, "1,2");
    feed(&mut engine, "3,4");
    let names = engine.data.names.clone();
    let time = engine.data.time.clone();
    let dataset = engine.data.dataset.clone();
    let out = feed(&mut engine, "#hello");
    assert_eq!(out.log.as_deref(), Some("hello"));
    assert!(out.event.is_none());
    assert!(out.record.is_none());
    assert_eq!(engine.data.names, names);
    assert_eq!(engine.data.time, time);
    assert_eq!(engine.data.dataset, dataset);
}

#[test]
fn empty_line_is_ignored() {
    let mut engine = Engine::new();
    let out = feed(&mut engine, "");
    assert!(out.log.is_none() && out.event.is_none() && out.record.is_none());
    assert!(engine.data.dataset.is_empty());
}

#[test]
fn command_decode_and_bias_labels() {
    let mut engine = Engine::new();
    engine.handle_command(ControlCommand::SetGuiWindow(GuiWindow::Protocol));
    let out = feed(&mut engine, "$BIASST");
    assert!(matches!(out.event, Some(QcmEvent::BiasDetectStart)));
    let out = feed(&mut engine, "$BIAS$42");
    assert!(matches!(out.event, Some(QcmEvent::BiasResult(42))));
    assert_eq!(engine.data.names, vec!["Cur. Bias", "Avg. Bias"]);
    // the forced reset makes the next data line start a fresh two-wide table
    feed(&mut engine, "1,2");
    assert_eq!(engine.data.dataset.len(), 2);
    assert_eq!(engine.data.names, vec!["Cur. Bias", "Avg. Bias"]);
    assert!(engine.data.dataset.iter().all(|c| c.is_empty()));
    let out = feed(&mut engine, "3,4");
    assert!(out.record.is_some());
    assert_eq!(channel_floats(&engine, 0), vec![3.0]);
    assert_eq!(channel_floats(&engine, 1), vec![4.0]);
}

#[test]
fn command_lines_are_ignored_in_the_raw_window() {
    let mut engine = Engine::new();
    let out = feed(&mut engine, "$BIASST");
    assert!(out.event.is_none());
    assert!(engine.data.names.is_empty());
    assert_eq!(engine.failed_format_counter, 0);
}

#[test]
fn unknown_or_malformed_commands_yield_no_event() {
    let mut engine = Engine::new();
    engine.handle_command(ControlCommand::SetGuiWindow(GuiWindow::Protocol));
    for line in ["$FOO$1", "$BIAS", "$BIAS$x", "$SHOTST$-1", "$"] {
        let out = feed(&mut engine, line);
        assert!(out.event.is_none(), "line {:?} decoded unexpectedly", line);
    }
}

#[test]
fn other_protocol_events_decode() {
    let mut engine = Engine::new();
    engine.handle_command(ControlCommand::SetGuiWindow(GuiWindow::Protocol));
    assert!(matches!(feed(&mut engine, "$PHAST").event, Some(QcmEvent::PhaseBaseDetectStart)));
    match feed(&mut engine, "$PHABASE$1.25").event {
        Some(QcmEvent::PhaseBaseResult(t)) => assert_eq!(t.parse::<f64>().unwrap(), 1.25),
        other => panic!("unexpected event {:?}", other.is_some()),
    }
    assert!(matches!(feed(&mut engine, "$SHOTST$3").event, Some(QcmEvent::ShotIqStart(3))));
    assert!(matches!(feed(&mut engine, "$SHOTFIN$3").event, Some(QcmEvent::ShotIqFinish(3))));
    assert!(matches!(feed(&mut engine, "$RTST$1").event, Some(QcmEvent::RealtimeIqStart(1))));
    assert!(matches!(feed(&mut engine, "$RTFIN$1").event, Some(QcmEvent::RealtimeIqFinish(1))));
    assert!(matches!(feed(&mut engine, "$TRACKST$9").event, Some(QcmEvent::TrackStart(9))));
    assert!(matches!(feed(&mut engine, "$MULPARAST$2").event, Some(QcmEvent::MultiParamsStart(2))));
    assert_eq!(
        engine.data.names,
        vec!["Cur. Reson. Freq.", "Max. G Resp.", "Q Factor"]
    );
}

#[test]
fn finish_events_do_not_touch_names() {
    let mut engine = Engine::new();
    engine.handle_command(ControlCommand::SetGuiWindow(GuiWindow::Protocol));
    feed(&mut engine, "1,2");
    let names = engine.data.names.clone();
    let out = feed(&mut engine, "$SHOTFIN$3");
    assert!(matches!(out.event, Some(QcmEvent::ShotIqFinish(3))));
    assert_eq!(engine.data.names, names);
}

#[test]
fn schema_recovery_after_ten_drifting_lines() {
    let mut engine = Engine::new();
    feed(&mut engine, "1,2");
    feed(&mut engine, "3,4");
    assert_eq!(engine.data.dataset.len(), 2);
    for _ in 0..10 {
        let out = feed(&mut engine, "1,2,3");
        assert!(out.record.is_none());
        assert_eq!(engine.data.dataset.len(), 2);
    }
    assert_eq!(engine.data.time.len(), 1);
    // the eleventh drifting line resets to the new three-channel width
    feed(&mut engine, "1,2,3");
    assert_eq!(engine.data.dataset.len(), 3);
    assert!(engine.data.dataset.iter().all(|c| c.is_empty()));
    assert!(engine.data.time.is_empty());
    assert_eq!(engine.data.names, vec!["Column 0", "Column 1", "Column 2"]);
}

#[test]
fn sliding_window_keeps_the_last_values_in_order() {
    let mut engine = Engine::new();
    engine.handle_command(ControlCommand::SetBufferSize(3));
    feed(&mut engine, "0");
    for v in 1..=5 {
        feed(&mut engine, &v.to_string());
    }
    assert_eq!(engine.data.time.len(), 3);
    assert_eq!(engine.data.absolute_time.len(), 3);
    assert_eq!(channel_floats(&engine, 0), vec![3.0, 4.0, 5.0]);
}

#[test]
fn capacity_change_takes_effect_on_the_next_append() {
    let mut engine = Engine::new();
    engine.handle_command(ControlCommand::SetBufferSize(5));
    feed(&mut engine, "0");
    for v in 1..=5 {
        feed(&mut engine, &v.to_string());
    }
    assert_eq!(engine.data.time.len(), 5);
    engine.handle_command(ControlCommand::SetBufferSize(2));
    // nothing is trimmed until the next accepted line
    assert_eq!(engine.data.time.len(), 5);
    feed(&mut engine, "6");
    assert_eq!(channel_floats(&engine, 0), vec![5.0, 6.0]);
    assert_eq!(engine.data.time.len(), 2);
}

#[test]
fn clear_empties_everything() {
    let mut engine = Engine::new();
    engine.handle_command(ControlCommand::SetRawTrafficOptions(RawTrafficOptions {
        enable: true,
        max_len: 10,
    }));
    feed(&mut engine, "1,2");
    feed(&mut engine, "3,4");
    for _ in 0..4 {
        feed(&mut engine, "1,2,3");
    }
    assert!(engine.failed_format_counter > 0);
    let save = engine.handle_command(ControlCommand::Clear);
    assert!(save.is_none());
    assert!(engine.data.dataset.is_empty());
    assert!(engine.data.time.is_empty());
    assert!(engine.data.absolute_time.is_empty());
    assert!(engine.data.names.is_empty());
    assert!(engine.data.raw_traffic.is_empty());
    assert_eq!(engine.failed_format_counter, 0);
}

#[test]
fn alignment_holds_after_a_mixed_stream() {
    let mut engine = Engine::new();
    engine.handle_command(ControlCommand::SetGuiWindow(GuiWindow::Protocol));
    engine.handle_command(ControlCommand::SetBufferSize(4));
    let stream = [
        "1,2", "3,4", "#note", "$BIASST", "5,6", "7,8", "1,2,3", "", "9,10", "x", "$RTFIN$2",
        "11,12",
    ];
    for line in stream {
        feed(&mut engine, line);
        for channel in &engine.data.dataset {
            assert_eq!(channel.len(), engine.data.time.len());
        }
        assert_eq!(engine.data.absolute_time.len(), engine.data.time.len());
    }
}

#[test]
fn raw_traffic_is_bounded_and_data_only() {
    let mut engine = Engine::new();
    engine.handle_command(ControlCommand::SetRawTrafficOptions(RawTrafficOptions {
        enable: true,
        max_len: 2,
    }));
    feed(&mut engine, "#debug");
    feed(&mut engine, "$BIASST");
    feed(&mut engine, "1");
    feed(&mut engine, "2");
    feed(&mut engine, "3");
    let payloads: Vec<&str> =
        engine.data.raw_traffic.iter().map(|p| p.payload.as_str()).collect();
    assert_eq!(payloads, vec!["2", "3"]);
}

#[test]
fn raw_traffic_is_not_kept_when_disabled() {
    let mut engine = Engine::new();
    feed(&mut engine, "1");
    feed(&mut engine, "2");
    assert!(engine.data.raw_traffic.is_empty());
}

#[test]
fn accepted_lines_are_forwarded_for_recording() {
    let mut engine = Engine::new();
    feed(&mut engine, "1,2");
    let out = engine.handle_packet(packet("3,4", 7, 99));
    let record = out.record.expect("an accepted line is forwarded");
    assert_eq!(record.time, 99);
    let floats: Vec<f64> = record.values.iter().map(|t| t.parse::<f64>().unwrap()).collect();
    assert_eq!(floats, vec![3.0, 4.0]);
    // a drifting line is not forwarded
    let out = engine.handle_packet(packet("1,2,3", 8, 100));
    assert!(out.record.is_none());
}

#[test]
fn set_names_overwrites_labels() {
    let mut engine = Engine::new();
    feed(&mut engine, "1,2");
    engine.handle_command(ControlCommand::SetNames(vec![
        "left".to_string(),
        "right".to_string(),
    ]));
    assert_eq!(engine.data.names, vec!["left", "right"]);
}

#[test]
fn save_request_hands_back_the_options() {
    let mut engine = Engine::new();
    feed(&mut engine, "1,2");
    let time_before = engine.data.time.clone();
    let save = engine.handle_command(ControlCommand::SaveCsv(FileOptions {
        path: "out.csv".to_string(),
        columns: vec![true, false],
    }));
    let opts = save.expect("a save request is handed back");
    assert_eq!(opts.path, "out.csv");
    assert_eq!(opts.columns, vec![true, false]);
    assert_eq!(engine.data.time, time_before);
}

#[test]
fn save_messages_name_the_destination() {
    let opts = FileOptions { path: "out.csv".to_string(), columns: vec![] };
    match save_message(&opts, Ok(())) {
        Print::Okay(m) => assert_eq!(m, "saved data file to out.csv"),
        _ => panic!("expected a success message"),
    }
    match save_message(&opts, Err("disk full".to_string())) {
        Print::Error(m) => assert_eq!(m, "failed to save file to out.csv: disk full"),
        _ => panic!("expected a failure message"),
    }
}

#[test]
fn zero_width_lines_reset_to_one_empty_channel() {
    let mut engine = Engine::new();
    feed(&mut engine, "x,y");
    assert_eq!(engine.data.dataset.len(), 1);
    // the label count already matched the zero width, so no labels are made
    assert!(engine.data.names.is_empty());
}

#[test]
fn labels_regenerate_only_when_the_count_changes() {
    let mut engine = Engine::new();
    feed(&mut engine, "1,2");
    assert_eq!(engine.data.names, vec!["Column 0", "Column 1"]);
    engine.handle_command(ControlCommand::SetNames(vec![
        "a".to_string(),
        "b".to_string(),
        "c".to_string(),
    ]));
    // a reset to a width matching the label count keeps the labels
    for _ in 0..11 {
        feed(&mut engine, "1,2,3");
    }
    assert_eq!(engine.data.dataset.len(), 3);
    assert_eq!(engine.data.names, vec!["a", "b", "c"]);
}
