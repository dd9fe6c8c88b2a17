use vstd::prelude::*;

use crate::numbers::{float_token_ok, is_float_token};
use crate::protocol::{
    decode_command, decode_spec, opt_event_view, start_label_set, start_labels, QcmEvent,
    QcmEventView,
};
use crate::store::{
    default_names, evict_oldest, lemma_map_push, lemma_window_map, make_default_names, window,
    DataContainer, Packet, PacketView, StoreView,
};
use crate::text::{split_line, split_seps, strings_view, trim_spec, trim_str};

verus! {

/// How many consecutive data lines of a drifting width are tolerated
/// before the next one forces a reset.
pub const SCHEMA_TOLERANCE: u32 = 10;

/// The mismatch count a protocol start event forces, chosen to exceed the
/// tolerance so that the next data line starts a fresh table.
pub const FORCED_RESET_COUNT: u32 = 20;

/// The sample capacity a fresh session starts from.
pub const DEFAULT_BUFFER_SIZE: usize = 5000;

/// The raw-traffic capacity a fresh session starts from.
pub const DEFAULT_RAW_TRAFFIC_MAX: usize = 1000;

/// Which display window is active: the raw window ignores command lines,
/// the protocol-aware window decodes them.
#[derive(Clone, Copy, PartialEq, Eq, Structural)]
pub enum GuiWindow {
    RawUart,
    Protocol,
}

/// Options for retaining raw traffic.
#[derive(Clone, Copy, PartialEq, Eq, Structural)]
pub struct RawTrafficOptions {
    pub enable: bool,
    pub max_len: usize,
}

/// Where and what to save: the destination path and, per channel, whether
/// it is selected.
pub struct FileOptions {
    pub path: String,
    pub columns: Vec<bool>,
}

/// The mathematical shape of the file options.
#[verifier::ext_equal]
pub ghost struct FileOptionsView {
    pub path: Seq<char>,
    pub columns: Seq<bool>,
}

impl View for FileOptions {
    type V = FileOptionsView;

    open spec fn view(&self) -> FileOptionsView {
        FileOptionsView { path: self.path@, columns: self.columns@ }
    }
}

/// A configuration instruction from the rendering collaborator.
pub enum ControlCommand {
    SetRawTrafficOptions(RawTrafficOptions),
    SetBufferSize(usize),
    SetNames(Vec<String>),
    SaveCsv(FileOptions),
    SetGuiWindow(GuiWindow),
    Clear,
}

/// The mathematical shape of a control command.
pub ghost enum ControlCommandView {
    SetRawTrafficOptions(RawTrafficOptions),
    SetBufferSize(usize),
    SetNames(Seq<Seq<char>>),
    SaveCsv(FileOptionsView),
    SetGuiWindow(GuiWindow),
    Clear,
}

impl View for ControlCommand {
    type V = ControlCommandView;

    open spec fn view(&self) -> ControlCommandView {
        match self {
            ControlCommand::SetRawTrafficOptions(o) => ControlCommandView::SetRawTrafficOptions(
                *o,
            ),
            ControlCommand::SetBufferSize(s) => ControlCommandView::SetBufferSize(*s),
            ControlCommand::SetNames(ns) => ControlCommandView::SetNames(strings_view(ns@)),
            ControlCommand::SaveCsv(fo) => ControlCommandView::SaveCsv(fo@),
            ControlCommand::SetGuiWindow(w) => ControlCommandView::SetGuiWindow(*w),
            ControlCommand::Clear => ControlCommandView::Clear,
        }
    }
}

/// One accepted sample forwarded to the recording collaborator: the
/// wall-clock timestamp and the values of the line, each as its validated
/// numeric text.
pub struct RecordData {
    pub time: u64,
    pub values: Vec<String>,
}

/// The mathematical shape of a forwarded sample.
#[verifier::ext_equal]
pub ghost struct RecordView {
    pub time: u64,
    pub values: Seq<Seq<char>>,
}

impl View for RecordData {
    type V = RecordView;

    open spec fn view(&self) -> RecordView {
        RecordView { time: self.time, values: strings_view(self.values@) }
    }
}

/// A user-visible message for the log sink.
pub enum Print {
    Empty,
    Okay(String),
    Error(String),
    Debug(String),
}

/// What one packet produced besides the state change: a debug message, a
/// decoded protocol event, a forwarded sample.
pub struct PacketOutcome {
    pub log: Option<String>,
    pub event: Option<QcmEvent>,
    pub record: Option<RecordData>,
}

/// The mathematical shape of a packet's outcome.
#[verifier::ext_equal]
pub ghost struct OutcomeView {
    pub log: Option<Seq<char>>,
    pub event: Option<QcmEventView>,
    pub record: Option<RecordView>,
}

impl View for PacketOutcome {
    type V = OutcomeView;

    open spec fn view(&self) -> OutcomeView {
        OutcomeView {
            log: match self.log {
                Some(m) => Some(m@),
                None => None,
            },
            event: opt_event_view(self.event),
            record: match self.record {
                Some(r) => Some(r@),
                None => None,
            },
        }
    }
}

/// The ingestion core: the shared store plus the small amount of
/// configuration the consumer loop keeps.
pub struct Engine {
    pub data: DataContainer,
    pub raw_traffic_options: RawTrafficOptions,
    pub failed_format_counter: u32,
    pub buffer_size: usize,
    pub gui_window: GuiWindow,
}

/// The mathematical shape of the core.
#[verifier::ext_equal]
pub ghost struct EngineView {
    pub store: StoreView,
    pub raw_traffic_options: RawTrafficOptions,
    pub failed_format_counter: u32,
    pub buffer_size: usize,
    pub gui_window: GuiWindow,
}

impl View for Engine {
    type V = EngineView;

    open spec fn view(&self) -> EngineView {
        EngineView {
            store: self.data@,
            raw_traffic_options: self.raw_traffic_options,
            failed_format_counter: self.failed_format_counter,
            buffer_size: self.buffer_size,
            gui_window: self.gui_window,
        }
    }
}

/// The core a fresh session starts from.
pub open spec fn initial_engine() -> EngineView {
    EngineView {
        store: StoreView::empty(),
        raw_traffic_options: RawTrafficOptions { enable: false, max_len: DEFAULT_RAW_TRAFFIC_MAX },
        failed_format_counter: 0,
        buffer_size: DEFAULT_BUFFER_SIZE,
        gui_window: GuiWindow::RawUart,
    }
}

/// The accepted values of a token sequence: each token trimmed, kept when
/// the float grammar accepts it, in order.
pub open spec fn accepted_tokens(toks: Seq<Seq<char>>) -> Seq<Seq<char>>
    decreases toks.len(),
{
    if toks.len() == 0 {
        Seq::empty()
    } else {
        let rest = accepted_tokens(toks.drop_last());
        let t = trim_spec(toks.last());
        if float_token_ok(t) {
            rest.push(t)
        } else {
            rest
        }
    }
}

/// The accepted values of a data line: the line is split at every colon
/// and comma, each token is trimmed, and the tokens the float grammar
/// accepts are kept, in order; their count is the line's width.
pub open spec fn line_values(s: Seq<char>) -> Seq<Seq<char>> {
    accepted_tokens(split_seps(s, ':', ','))
}

/// Splits a data line into its accepted values.
#[verifier::loop_isolation(false)]
pub fn parse_data_line(s: &str) -> (r: Vec<String>)
    ensures
        strings_view(r@) == line_values(s@),
{
    let toks = split_line(s, ':', ',');
    let ghost tv = strings_view(toks@);
    let mut out: Vec<String> = Vec::new();
    let mut i: usize = 0;
    while i < toks.len()
        invariant
            0 <= i <= toks@.len(),
            tv == strings_view(toks@),
            strings_view(out@) == accepted_tokens(tv.take(i as int)),
        decreases toks@.len() - i,
    {
        let t = trim_str(toks[i].as_str());
        proof {
            assert(tv.take(i + 1).drop_last() =~= tv.take(i as int));
            assert(tv.take(i + 1).last() == toks@[i as int]@);
        }
        if is_float_token(t.as_str()) {
            proof {
                assert(strings_view(out@.push(t)) =~= strings_view(out@).push(t@));
            }
            out.push(t);
        }
        i = i + 1;
    }
    proof {
        assert(tv.take(toks@.len() as int) =~= tv);
    }
    out
}

/// One more than nothing: the channel count a reset allocates for a line
/// of width `w`.
pub open spec fn at_least_one(w: nat) -> nat {
    if w == 0 {
        1
    } else {
        w
    }
}

/// The store after a schema reset for a line of width `w`: the histories
/// are cleared, the table is reallocated, and the default labels are
/// regenerated when the label count does not match the new width.
pub open spec fn reset_store(s: StoreView, w: nat) -> StoreView {
    StoreView {
        names: if s.names.len() != w {
            default_names(at_least_one(w))
        } else {
            s.names
        },
        time: Seq::empty(),
        absolute_time: Seq::empty(),
        dataset: Seq::new(at_least_one(w) as nat, |i: int| Seq::<Seq<char>>::empty()),
        raw_traffic: s.raw_traffic,
    }
}

/// The store after accepting one line whose width matches the table: one
/// value appended per channel, one timestamp per timestamp sequence, each
/// then held to the capacity.
pub open spec fn accept_sample(
    s: StoreView,
    vals: Seq<Seq<char>>,
    p: PacketView,
    cap: nat,
) -> StoreView {
    StoreView {
        names: s.names,
        time: window(s.time.push(p.relative_time), cap),
        absolute_time: window(s.absolute_time.push(p.absolute_time), cap),
        dataset: Seq::new(s.dataset.len(), |i: int| window(s.dataset[i].push(vals[i]), cap)),
        raw_traffic: s.raw_traffic,
    }
}

/// The core after a protocol start event: its label set is announced and
/// the mismatch counter is forced past the tolerance, so the next data
/// line starts a fresh table. Any other event leaves the core unchanged.
pub open spec fn apply_event(e: EngineView, ev: QcmEventView) -> EngineView {
    match start_labels(ev) {
        Some(labels) => EngineView {
            store: StoreView { names: labels, ..e.store },
            failed_format_counter: FORCED_RESET_COUNT,
            ..e
        },
        None => e,
    }
}

/// What one packet does to the core and what it produces.
#[verifier::ext_equal]
pub ghost struct StepView {
    pub eng: EngineView,
    pub out: OutcomeView,
}

/// The silent step: nothing changes, nothing is produced.
pub open spec fn silent_step(e: EngineView) -> StepView {
    StepView { eng: e, out: OutcomeView { log: None, event: None, record: None } }
}

/// What one packet does to the core: an empty line is ignored; a line
/// starting with `#` is a debug message and changes nothing; a line
/// starting with `$` is ignored in the raw window and otherwise decoded,
/// a decoded event being forwarded and a start event announcing its label
/// set and forcing a reset; any other line is a data line, retained as raw
/// traffic when that is enabled, then parsed and either reset against,
/// accepted and forwarded, or tolerated as drift.
pub open spec fn step(e: EngineView, p: PacketView) -> StepView {
    if p.payload.len() == 0 {
        silent_step(e)
    } else if p.payload[0] == '#' {
        StepView {
            eng: e,
            out: OutcomeView { log: Some(p.payload.skip(1)), event: None, record: None },
        }
    } else if p.payload[0] == '$' {
        if e.gui_window == GuiWindow::RawUart {
            silent_step(e)
        } else {
            match decode_spec(split_seps(p.payload.skip(1), '$', '$')) {
                None => silent_step(e),
                Some(ev) => StepView {
                    eng: apply_event(e, ev),
                    out: OutcomeView { log: None, event: Some(ev), record: None },
                },
            }
        }
    } else {
        let e1 = if e.raw_traffic_options.enable {
            EngineView {
                store: StoreView {
                    raw_traffic: window(
                        e.store.raw_traffic.push(p),
                        e.raw_traffic_options.max_len as nat,
                    ),
                    ..e.store
                },
                ..e
            }
        } else {
            e
        };
        let vals = line_values(p.payload);
        let w = vals.len();
        let s = e1.store;
        if s.dataset.len() == 0 || e1.failed_format_counter >= SCHEMA_TOLERANCE || s.dataset[0].len()
            != s.time.len() {
            StepView {
                eng: EngineView { store: reset_store(s, w), failed_format_counter: 0, ..e1 },
                out: OutcomeView { log: None, event: None, record: None },
            }
        } else if w == s.dataset.len() {
            StepView {
                eng: EngineView {
                    store: accept_sample(s, vals, p, e1.buffer_size as nat),
                    failed_format_counter: 0,
                    ..e1
                },
                out: OutcomeView {
                    log: None,
                    event: None,
                    record: Some(RecordView { time: p.absolute_time, values: vals }),
                },
            }
        } else {
            StepView {
                eng: EngineView {
                    failed_format_counter: (e1.failed_format_counter + 1) as u32,
                    ..e1
                },
                out: OutcomeView { log: None, event: None, record: None },
            }
        }
    }
}

/// What one control command does to the core, and the save request it
/// hands out, if any.
#[verifier::ext_equal]
pub ghost struct CommandStep {
    pub eng: EngineView,
    pub save: Option<FileOptionsView>,
}

/// What one control command does: options and capacities are replaced and
/// take effect on the next append; names are overwritten unconditionally;
/// a save request is handed out against the current store; clear empties
/// the store and zeroes the mismatch counter.
pub open spec fn apply_command(e: EngineView, c: ControlCommandView) -> CommandStep {
    match c {
        ControlCommandView::SetRawTrafficOptions(o) => CommandStep {
            eng: EngineView { raw_traffic_options: o, ..e },
            save: None,
        },
        ControlCommandView::SetBufferSize(s) => CommandStep {
            eng: EngineView { buffer_size: s, ..e },
            save: None,
        },
        ControlCommandView::SetNames(ns) => CommandStep {
            eng: EngineView { store: StoreView { names: ns, ..e.store }, ..e },
            save: None,
        },
        ControlCommandView::SaveCsv(fo) => CommandStep { eng: e, save: Some(fo) },
        ControlCommandView::SetGuiWindow(w) => CommandStep {
            eng: EngineView { gui_window: w, ..e },
            save: None,
        },
        ControlCommandView::Clear => CommandStep {
            eng: EngineView { store: StoreView::empty(), failed_format_counter: 0, ..e },
            save: None,
        },
    }
}

impl Engine {
    /// Builds the core a fresh session starts from.
    pub fn new() -> (r: Engine)
        ensures
            r@ == initial_engine(),
    {
        let r = Engine {
            data: DataContainer::new(),
            raw_traffic_options: RawTrafficOptions {
                enable: false,
                max_len: DEFAULT_RAW_TRAFFIC_MAX,
            },
            failed_format_counter: 0,
            buffer_size: DEFAULT_BUFFER_SIZE,
            gui_window: GuiWindow::RawUart,
        };
        proof {
            assert(r@ =~~= initial_engine());
        }
        r
    }

    /// Applies one control command; a save request is handed back to the
    /// caller together with the options to honour it with.
    pub fn handle_command(&mut self, cmd: ControlCommand) -> (save: Option<FileOptions>)
        ensures
            final(self)@ == apply_command(old(self)@, cmd@).eng,
            match save {
                Some(fo) => apply_command(old(self)@, cmd@).save == Some(fo@),
                None => apply_command(old(self)@, cmd@).save is None,
            },
    {
        let ghost e0 = self@;
        match cmd {
            ControlCommand::SetRawTrafficOptions(o) => {
                self.raw_traffic_options = o;
                proof {
                    assert(self@ =~~= apply_command(e0, cmd@).eng);
                }
                None
            },
            ControlCommand::SetBufferSize(s) => {
                self.buffer_size = s;
                proof {
                    assert(self@ =~~= apply_command(e0, cmd@).eng);
                }
                None
            },
            ControlCommand::SetNames(ns) => {
                let ghost c = cmd@;
                self.data.names = ns;
                proof {
                    assert(self@ =~~= apply_command(e0, c).eng);
                }
                None
            },
            ControlCommand::SaveCsv(fo) => {
                let ghost c = cmd@;
                proof {
                    assert(self@ =~~= apply_command(e0, c).eng);
                }
                Some(fo)
            },
            ControlCommand::SetGuiWindow(w) => {
                self.gui_window = w;
                proof {
                    assert(self@ =~~= apply_command(e0, cmd@).eng);
                }
                None
            },
            ControlCommand::Clear => {
                self.data = DataContainer::new();
                self.failed_format_counter = 0;
                proof {
                    assert(self@ =~~= apply_command(e0, cmd@).eng);
                }
                None
            },
        }
    }
}

/// The message the log sink gets after honouring a save request: success
/// names the destination, failure names it with the reason; the store is
/// untouched either way.
pub fn save_message(opts: &FileOptions, outcome: Result<(), String>) -> (p: Print)
    ensures
        match outcome {
            Ok(u) => p matches Print::Okay(m) && m@ == "saved data file to "@ + opts.path@,
            Err(reason) => p matches Print::Error(m) && m@ == "failed to save file to "@
                + opts.path@ + ": "@ + reason@,
        },
{
    match outcome {
        Ok(_) => {
            let mut m = String::from_str("saved data file to ");
            m.append(opts.path.as_str());
            Print::Okay(m)
        },
        Err(reason) => {
            let mut m = String::from_str("failed to save file to ");
            m.append(opts.path.as_str());
            m.append(": ");
            m.append(reason.as_str());
            Print::Error(m)
        },
    }
}

impl Engine {
    /// Processes one received line: the state change and the outcome are
    /// exactly those of `step` on the core's mathematical shape.
    #[verifier::loop_isolation(false)]
    #[verifier::rlimit(100)]
    pub fn handle_packet(&mut self, packet: Packet) -> (out: PacketOutcome)
        ensures
            final(self)@ == step(old(self)@, packet@).eng,
            out@ == step(old(self)@, packet@).out,
    {
        let ghost e0 = self@;
        let ghost pv = packet@;
        let ghost st = step(e0, pv);
        let n = packet.payload.as_str().unicode_len();
        if n == 0 {
            return PacketOutcome { log: None, event: None, record: None };
        }
        let c0 = packet.payload.as_str().get_char(0);
        if c0 == '#' {
            let msg = packet.payload.as_str().substring_char(1, n);
            proof {
                assert(msg@ =~= pv.payload.skip(1));
            }
            return PacketOutcome { log: Some(String::from_str(msg)), event: None, record: None };
        }
        if c0 == '$' {
            if self.gui_window == GuiWindow::RawUart {
                return PacketOutcome { log: None, event: None, record: None };
            }
            let rest = packet.payload.as_str().substring_char(1, n);
            proof {
                assert(rest@ =~= pv.payload.skip(1));
            }
            let toks = split_line(rest, '$', '$');
            match decode_command(&toks) {
                None => {
                    return PacketOutcome { log: None, event: None, record: None };
                },
                Some(event) => {
                    match start_label_set(&event) {
                        Some(labels) => {
                            self.data.names = labels;
                            self.failed_format_counter = FORCED_RESET_COUNT;
                        },
                        None => {},
                    }
                    proof {
                        assert(self@ =~~= st.eng);
                    }
                    return PacketOutcome { log: None, event: Some(event), record: None };
                },
            }
        }
        // a data line
        let vals = parse_data_line(packet.payload.as_str());
        let rel = packet.relative_time;
        let abs = packet.absolute_time;
        let ghost valsv = strings_view(vals@);
        let max_len = self.raw_traffic_options.max_len;
        if self.raw_traffic_options.enable {
            let ghost r0 = self.data.raw_traffic@;
            self.data.raw_traffic.push(packet);
            evict_oldest(&mut self.data.raw_traffic, max_len);
            proof {
                lemma_map_push::<Packet, PacketView>(r0, |p: Packet| p@, packet);
                lemma_window_map::<Packet, PacketView>(
                    r0.push(packet),
                    |p: Packet| p@,
                    max_len as nat,
                );
                assert(self@.store.raw_traffic =~= window(
                    e0.store.raw_traffic.push(pv),
                    max_len as nat,
                ));
            }
        }
        let ghost e1 = if e0.raw_traffic_options.enable {
            EngineView {
                store: StoreView {
                    raw_traffic: window(
                        e0.store.raw_traffic.push(pv),
                        e0.raw_traffic_options.max_len as nat,
                    ),
                    ..e0.store
                },
                ..e0
            }
        } else {
            e0
        };
        proof {
            assert(self@ =~~= e1);
        }
        let w = vals.len();
        if self.data.dataset.len() == 0 || self.failed_format_counter >= SCHEMA_TOLERANCE
            || self.data.dataset[0].len() != self.data.time.len() {
            // reset: drop the line, reallocate the table for its width
            self.data.time = Vec::new();
            self.data.absolute_time = Vec::new();
            let channels = if w == 0 {
                1
            } else {
                w
            };
            let mut ds: Vec<Vec<String>> = Vec::new();
            let mut j: usize = 0;
            while j < channels
                invariant
                    0 <= j <= channels,
                    ds@.len() == j,
                    forall|t: int| 0 <= t < j ==> (#[trigger] ds@[t])@.len() == 0,
                decreases channels - j,
            {
                ds.push(Vec::new());
                j = j + 1;
            }
            self.data.dataset = ds;
            if self.data.names.len() != w {
                self.data.names = make_default_names(channels);
            }
            self.failed_format_counter = 0;
            proof {
                assert(self@.store.dataset =~~= Seq::new(
                    at_least_one(w as nat) as nat,
                    |i: int| Seq::<Seq<char>>::empty(),
                ));
                assert(self@ =~~= st.eng);
            }
            return PacketOutcome { log: None, event: None, record: None };
        }
        if w == self.data.dataset.len() {
            // accept: forward the sample, append, hold to capacity
            let cap = self.buffer_size;
            let mut rec_vals: Vec<String> = Vec::new();
            let mut i: usize = 0;
            while i < vals.len()
                invariant
                    0 <= i <= vals@.len(),
                    rec_vals@.len() == i,
                    forall|t: int| 0 <= t < i ==> rec_vals@[t] == vals@[t],
                decreases vals@.len() - i,
            {
                rec_vals.push(vals[i].clone());
                i = i + 1;
            }
            proof {
                assert(rec_vals@ =~= vals@);
            }
            let ghost ds0 = e1.store.dataset;
            proof {
                assert(ds0.len() == w);
                assert forall|t: int| 0 <= t < w implies strings_view(
                    (#[trigger] self.data.dataset@[t])@,
                ) == ds0[t] by {
                    assert(self@.store.dataset[t] == strings_view(self.data.dataset@[t]@));
                }
            }
            let mut i: usize = 0;
            while i < w
                invariant
                    0 <= i <= w,
                    w == valsv.len(),
                    ds0.len() == w,
                    self.data.dataset@.len() == w,
                    forall|t: int|
                        0 <= t < i ==> strings_view((#[trigger] self.data.dataset@[t])@) == window(
                            ds0[t].push(valsv[t]),
                            cap as nat,
                        ),
                    forall|t: int|
                        i <= t < w ==> strings_view((#[trigger] self.data.dataset@[t])@)
                            == ds0[t],
                    self@.store.names == e1.store.names,
                    self@.store.time == e1.store.time,
                    self@.store.absolute_time == e1.store.absolute_time,
                    self@.store.raw_traffic == e1.store.raw_traffic,
                    self.raw_traffic_options == e1.raw_traffic_options,
                    self.failed_format_counter == e1.failed_format_counter,
                    self.buffer_size == cap,
                    self.gui_window == e1.gui_window,
                decreases w - i,
            {
                let v = vals[i].clone();
                proof {
                    assert(v@ == valsv[i as int]);
                }
                let ghost before = self.data.dataset@;
                proof {
                    assert(strings_view(before[i as int]@) == ds0[i as int]);
                }
                let ch = &mut self.data.dataset[i];
                let ghost ch0 = ch@;
                ch.push(v);
                evict_oldest(ch, cap);
                proof {
                    lemma_map_push::<String, Seq<char>>(ch0, |t: String| t@, v);
                    lemma_window_map::<String, Seq<char>>(
                        ch0.push(v),
                        |t: String| t@,
                        cap as nat,
                    );
                    assert(strings_view(ch0) == ds0[i as int]);
                    assert(strings_view(self.data.dataset@[i as int]@) == window(
                        ds0[i as int].push(valsv[i as int]),
                        cap as nat,
                    ));
                    assert forall|t: int| 0 <= t < w && t != i implies self.data.dataset@[t]
                        == before[t] by {}
                }
                i = i + 1;
            }
            self.data.time.push(rel);
            evict_oldest(&mut self.data.time, cap);
            self.data.absolute_time.push(abs);
            evict_oldest(&mut self.data.absolute_time, cap);
            self.failed_format_counter = 0;
            let record = RecordData { time: abs, values: rec_vals };
            proof {
                let expected = accept_sample(e1.store, valsv, pv, cap as nat).dataset;
                assert(expected.len() == w);
                assert(self@.store.dataset.len() == w);
                assert forall|t: int| 0 <= t < w implies self@.store.dataset[t] == expected[t] by {
                    assert(self@.store.dataset[t] == strings_view(self.data.dataset@[t]@));
                    assert(expected[t] == window(ds0[t].push(valsv[t]), cap as nat));
                }
                assert(self@.store.dataset =~~= expected);
                assert(self@ =~~= st.eng);
                assert(record@ =~~= RecordView { time: pv.absolute_time, values: valsv });
            }
            return PacketOutcome { log: None, event: None, record: Some(record) };
        }
        // tolerate: count the drifting line, keep the table
        self.failed_format_counter = self.failed_format_counter + 1;
        proof {
            assert(self@ =~~= st.eng);
        }
        PacketOutcome { log: None, event: None, record: None }
    }
}

} // verus!
