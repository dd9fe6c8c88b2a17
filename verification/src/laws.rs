use vstd::prelude::*;

use crate::engine::{
    apply_command, at_least_one, initial_engine, line_values, step, ControlCommandView,
    EngineView, GuiWindow, SCHEMA_TOLERANCE,
};
use crate::protocol::{decode_spec, start_labels, QcmEventView};
use crate::store::{window, PacketView, StoreView};
use crate::text::split_seps;

verus! {

/// The core after a whole sequence of packets, processed in order.
pub open spec fn run(e: EngineView, ps: Seq<PacketView>) -> EngineView
    decreases ps.len(),
{
    if ps.len() == 0 {
        e
    } else {
        run(step(e, ps[0]).eng, ps.skip(1))
    }
}

/// Running a concatenation is running the parts in turn.
pub proof fn lemma_run_append(e: EngineView, a: Seq<PacketView>, b: Seq<PacketView>)
    ensures
        run(e, a + b) == run(run(e, a), b),
    decreases a.len(),
{
    if a.len() == 0 {
        assert(a + b =~= b);
    } else {
        assert((a + b)[0] == a[0]);
        assert((a + b).skip(1) =~= a.skip(1) + b);
        lemma_run_append(step(e, a[0]).eng, a.skip(1), b);
    }
}

/// One step keeps every channel sequence as long as the timestamp
/// sequences.
pub proof fn lemma_step_preserves_alignment(e: EngineView, p: PacketView)
    requires
        e.store.aligned(),
    ensures
        step(e, p).eng.store.aligned(),
{
    let s1 = step(e, p).eng.store;
    if p.payload.len() == 0 {
    } else if p.payload[0] == '#' {
    } else if p.payload[0] == '$' {
    } else {
        let e1 = if e.raw_traffic_options.enable {
            EngineView {
                store: StoreView {
                    raw_traffic: window(
                        e.store.raw_traffic.push(p),
                        e.raw_traffic_options.max_len as nat,
                    ),
                    ..e.store
                },
                ..e
            }
        } else {
            e
        };
        let s = e1.store;
        let vals = line_values(p.payload);
        let w = vals.len();
        if s.dataset.len() == 0 || e1.failed_format_counter >= SCHEMA_TOLERANCE || s.dataset[0].len()
            != s.time.len() {
            assert forall|i: int| 0 <= i < s1.dataset.len() implies (#[trigger] s1.dataset[i]).len()
                == s1.time.len() by {
                assert(s1.dataset[i] == Seq::<Seq<char>>::empty());
            }
        } else if w == s.dataset.len() {
            let cap = e1.buffer_size as nat;
            assert forall|i: int| 0 <= i < s1.dataset.len() implies (#[trigger] s1.dataset[i]).len()
                == s1.time.len() by {
                assert(s1.dataset[i] == window(s.dataset[i].push(vals[i]), cap));
                assert(s.dataset[i].len() == s.time.len());
            }
        } else {
        }
    }
}

/// Every channel sequence keeps the length of the timestamp sequences
/// across any finite sequence of packets.
pub proof fn lemma_run_preserves_alignment(e: EngineView, ps: Seq<PacketView>)
    requires
        e.store.aligned(),
    ensures
        run(e, ps).store.aligned(),
    decreases ps.len(),
{
    if ps.len() > 0 {
        lemma_step_preserves_alignment(e, ps[0]);
        lemma_run_preserves_alignment(step(e, ps[0]).eng, ps.skip(1));
    }
}

/// From a fresh session, every channel sequence in the dataset has the
/// same length as the time sequence after processing any finite sequence
/// of packets.
pub proof fn lemma_ingestion_keeps_alignment(ps: Seq<PacketView>)
    ensures
        run(initial_engine(), ps).store.aligned(),
{
    lemma_run_preserves_alignment(initial_engine(), ps);
}

/// A bounded history under the sliding-window discipline: each value is
/// appended and the sequence is then held to the capacity.
pub open spec fn fold_window<T>(s0: Seq<T>, vs: Seq<T>, cap: nat) -> Seq<T>
    decreases vs.len(),
{
    if vs.len() == 0 {
        s0
    } else {
        fold_window(window(s0.push(vs[0]), cap), vs.skip(1), cap)
    }
}

/// Evicting first and appending more reaches the same window as
/// appending everything first.
pub proof fn lemma_window_absorb<T>(x: Seq<T>, rest: Seq<T>, cap: nat)
    ensures
        window(window(x, cap) + rest, cap) == window(x + rest, cap),
{
    if x.len() <= cap {
        assert(window(x, cap) + rest =~= x + rest);
    } else {
        let wx = window(x, cap);
        let lhs = window(wx + rest, cap);
        let rhs = window(x + rest, cap);
        assert(wx.len() == cap);
        assert(lhs.len() == cap);
        assert(rhs.len() == cap);
        assert forall|i: int| 0 <= i < cap implies lhs[i] == rhs[i] by {
            let j = (wx + rest).len() - cap + i;
            if (wx + rest).len() > cap {
                assert(lhs[i] == (wx + rest)[j]);
            } else {
                assert(rest.len() == 0);
                assert(lhs[i] == (wx + rest)[j]);
            }
            assert(rhs[i] == (x + rest)[x.len() + rest.len() - cap + i]);
            if j < wx.len() {
                assert((wx + rest)[j] == wx[j]);
                assert(wx[j] == x[x.len() - cap + j]);
            } else {
                assert((wx + rest)[j] == rest[j - cap]);
            }
        }
        assert(lhs =~= rhs);
    }
}

/// Sliding-window law: pushing values one by one into a history that fits
/// its capacity leaves the window of the whole.
pub proof fn lemma_fold_window<T>(s0: Seq<T>, vs: Seq<T>, cap: nat)
    requires
        s0.len() <= cap,
    ensures
        fold_window(s0, vs, cap) == window(s0 + vs, cap),
    decreases vs.len(),
{
    if vs.len() == 0 {
        assert(s0 + vs =~= s0);
    } else {
        let first = window(s0.push(vs[0]), cap);
        lemma_fold_window(first, vs.skip(1), cap);
        lemma_window_absorb(s0.push(vs[0]), vs.skip(1), cap);
        assert(s0.push(vs[0]) + vs.skip(1) =~= s0 + vs);
    }
}

/// Sliding-window law: with capacity `cap`, after pushing at least `cap`
/// values into an empty history, the stored content is exactly the last
/// `cap` pushed values, in order.
pub proof fn lemma_sliding_window_contents<T>(vs: Seq<T>, cap: nat)
    requires
        vs.len() >= cap,
    ensures
        fold_window(Seq::<T>::empty(), vs, cap) == vs.skip(vs.len() - cap),
        fold_window(Seq::<T>::empty(), vs, cap).len() == cap,
    decreases vs.len(),
{
    lemma_fold_window(Seq::<T>::empty(), vs, cap);
    assert(Seq::<T>::empty() + vs =~= vs);
    if vs.len() == cap {
        assert(vs.skip(0) =~= vs);
    }
}

/// The values a sequence of data lines carries for channel `i`.
pub open spec fn channel_values(ps: Seq<PacketView>, i: int) -> Seq<Seq<char>> {
    ps.map_values(|p: PacketView| line_values(p.payload)[i])
}

/// Sliding window through the core: a run of data lines whose width
/// matches the table appends each line's value for a channel and holds
/// the channel to the capacity.
pub proof fn lemma_run_sliding_window(e: EngineView, ps: Seq<PacketView>, i: int)
    requires
        e.store.aligned(),
        e.store.dataset.len() > 0,
        e.failed_format_counter < SCHEMA_TOLERANCE,
        forall|k: int|
            0 <= k < ps.len() ==> is_data_line(#[trigger] ps[k]) && line_values(
                ps[k].payload,
            ).len() == e.store.dataset.len(),
        0 <= i < e.store.dataset.len(),
    ensures
        run(e, ps).store.dataset[i] == fold_window(
            e.store.dataset[i],
            channel_values(ps, i),
            e.buffer_size as nat,
        ),
    decreases ps.len(),
{
    if ps.len() == 0 {
        assert(channel_values(ps, i) =~= Seq::<Seq<char>>::empty());
    } else {
        let cap = e.buffer_size as nat;
        let e1 = step(e, ps[0]).eng;
        lemma_step_preserves_alignment(e, ps[0]);
        assert(e.store.dataset[0].len() == e.store.time.len());
        assert(e1.store.dataset[i] == window(
            e.store.dataset[i].push(line_values(ps[0].payload)[i]),
            cap,
        ));
        assert forall|k: int|
            0 <= k < ps.skip(1).len() implies is_data_line(#[trigger] ps.skip(1)[k]) && line_values(
            ps.skip(1)[k].payload,
        ).len() == e1.store.dataset.len() by {
            assert(ps.skip(1)[k] == ps[k + 1]);
        }
        lemma_run_sliding_window(e1, ps.skip(1), i);
        assert(channel_values(ps, i).skip(1) =~= channel_values(ps.skip(1), i));
        assert(channel_values(ps, i)[0] == line_values(ps[0].payload)[i]);
    }
}

/// Sliding window through the core, from an empty channel: once at least
/// a capacity's worth of matching data lines have been accepted, the
/// channel holds exactly the last `buffer_size` pushed values, in order.
pub proof fn lemma_engine_window_contents(e: EngineView, ps: Seq<PacketView>, i: int)
    requires
        e.store.aligned(),
        e.store.dataset.len() > 0,
        e.failed_format_counter < SCHEMA_TOLERANCE,
        forall|k: int|
            0 <= k < ps.len() ==> is_data_line(#[trigger] ps[k]) && line_values(
                ps[k].payload,
            ).len() == e.store.dataset.len(),
        0 <= i < e.store.dataset.len(),
        e.store.dataset[i].len() == 0,
        ps.len() >= e.buffer_size,
    ensures
        run(e, ps).store.dataset[i] == channel_values(ps, i).skip(
            ps.len() - e.buffer_size,
        ),
        run(e, ps).store.dataset[i].len() == e.buffer_size,
{
    let cap = e.buffer_size as nat;
    let vs = channel_values(ps, i);
    lemma_run_sliding_window(e, ps, i);
    assert(e.store.dataset[i] =~= Seq::<Seq<char>>::empty());
    lemma_sliding_window_contents(vs, cap);
}

/// Whether a packet carries a data line: non-empty, and neither a debug
/// nor a command marker in front.
pub open spec fn is_data_line(p: PacketView) -> bool {
    p.payload.len() > 0 && p.payload[0] != '#' && p.payload[0] != '$'
}

/// A debug line logs its text and changes nothing: neither the store nor
/// the configuration moves, and nothing is forwarded.
pub proof fn lemma_debug_packet(e: EngineView, p: PacketView)
    requires
        p.payload.len() > 0,
        p.payload[0] == '#',
    ensures
        step(e, p).eng == e,
        step(e, p).out.log == Some(p.payload.skip(1)),
        step(e, p).out.event is None,
        step(e, p).out.record is None,
{
}

/// In the protocol-aware window, a decoded start event is forwarded, its
/// label set is announced, and the mismatch counter is forced past the
/// tolerance: the next data line starts a fresh table.
pub proof fn lemma_start_event(
    e: EngineView,
    p: PacketView,
    ev: QcmEventView,
    labels: Seq<Seq<char>>,
)
    requires
        e.gui_window == GuiWindow::Protocol,
        p.payload.len() > 0,
        p.payload[0] == '$',
        decode_spec(split_seps(p.payload.skip(1), '$', '$')) == Some(ev),
        start_labels(ev) == Some(labels),
    ensures
        step(e, p).eng.store.names == labels,
        step(e, p).eng.failed_format_counter >= SCHEMA_TOLERANCE,
        step(e, p).out.event == Some(ev),
{
}

/// A data line arriving while the mismatch counter has passed the
/// tolerance resets the table: the histories come out empty and the
/// line's width is the new channel count.
pub proof fn lemma_forced_reset(e: EngineView, p: PacketView)
    requires
        is_data_line(p),
        e.failed_format_counter >= SCHEMA_TOLERANCE,
    ensures
        step(e, p).eng.store.dataset.len() == at_least_one(line_values(p.payload).len()),
        forall|i: int|
            0 <= i < step(e, p).eng.store.dataset.len() ==> (#[trigger] step(
                e,
                p,
            ).eng.store.dataset[i]).len() == 0,
        step(e, p).eng.store.time.len() == 0,
        step(e, p).eng.store.absolute_time.len() == 0,
        step(e, p).eng.failed_format_counter == 0,
{
    let s1 = step(e, p).eng.store;
    assert forall|i: int| 0 <= i < s1.dataset.len() implies (#[trigger] s1.dataset[i]).len()
        == 0 by {
        assert(s1.dataset[i] == Seq::<Seq<char>>::empty());
    }
}

/// A drifting data line within the tolerance only counts: the store's
/// table, histories and labels stay exactly as they were.
pub proof fn lemma_tolerated_drift(e: EngineView, p: PacketView)
    requires
        is_data_line(p),
        e.store.aligned(),
        e.store.dataset.len() > 0,
        e.failed_format_counter < SCHEMA_TOLERANCE,
        line_values(p.payload).len() != e.store.dataset.len(),
    ensures
        step(e, p).eng.store.dataset == e.store.dataset,
        step(e, p).eng.store.time == e.store.time,
        step(e, p).eng.store.absolute_time == e.store.absolute_time,
        step(e, p).eng.store.names == e.store.names,
        step(e, p).eng.failed_format_counter == e.failed_format_counter + 1,
        step(e, p).out.record is None,
{
}

/// Tolerated drift over a run: while the counter stays within the
/// tolerance, mismatching data lines leave the table untouched and only
/// count up.
proof fn lemma_drift_run(e: EngineView, ps: Seq<PacketView>)
    requires
        e.store.aligned(),
        e.store.dataset.len() > 0,
        e.failed_format_counter + ps.len() <= SCHEMA_TOLERANCE,
        forall|i: int|
            0 <= i < ps.len() ==> is_data_line(#[trigger] ps[i]) && line_values(
                ps[i].payload,
            ).len() != e.store.dataset.len(),
    ensures
        run(e, ps).store.dataset == e.store.dataset,
        run(e, ps).store.time == e.store.time,
        run(e, ps).store.absolute_time == e.store.absolute_time,
        run(e, ps).store.names == e.store.names,
        run(e, ps).store.aligned(),
        run(e, ps).failed_format_counter == e.failed_format_counter + ps.len(),
        run(e, ps).buffer_size == e.buffer_size,
        run(e, ps).gui_window == e.gui_window,
        run(e, ps).raw_traffic_options == e.raw_traffic_options,
    decreases ps.len(),
{
    if ps.len() > 0 {
        lemma_tolerated_drift(e, ps[0]);
        lemma_step_preserves_alignment(e, ps[0]);
        let e1 = step(e, ps[0]).eng;
        assert forall|i: int|
            0 <= i < ps.skip(1).len() implies is_data_line(#[trigger] ps.skip(1)[i]) && line_values(
            ps.skip(1)[i].payload,
        ).len() != e1.store.dataset.len() by {
            assert(ps.skip(1)[i] == ps[i + 1]);
        }
        lemma_drift_run(e1, ps.skip(1));
    }
}

/// Schema recovery: when the tolerance's worth of consecutive data lines
/// all drift from the current width, the next such line resets the table;
/// its width is the new channel count and every history is empty right
/// after.
pub proof fn lemma_schema_recovery(e: EngineView, ps: Seq<PacketView>)
    requires
        e.store.aligned(),
        e.store.dataset.len() > 0,
        e.failed_format_counter == 0,
        ps.len() == SCHEMA_TOLERANCE + 1,
        forall|i: int|
            0 <= i < ps.len() ==> is_data_line(#[trigger] ps[i]) && line_values(
                ps[i].payload,
            ).len() != e.store.dataset.len(),
    ensures
        run(e, ps).store.dataset.len() == at_least_one(
            line_values(ps[ps.len() - 1].payload).len(),
        ),
        forall|i: int|
            0 <= i < run(e, ps).store.dataset.len() ==> (#[trigger] run(
                e,
                ps,
            ).store.dataset[i]).len() == 0,
        run(e, ps).store.time.len() == 0,
{
    let head = ps.take(SCHEMA_TOLERANCE as int);
    let tail = ps.skip(SCHEMA_TOLERANCE as int);
    assert(head + tail =~= ps);
    lemma_run_append(e, head, tail);
    assert forall|i: int|
        0 <= i < head.len() implies is_data_line(#[trigger] head[i]) && line_values(
        head[i].payload,
    ).len() != e.store.dataset.len() by {
        assert(head[i] == ps[i]);
    }
    lemma_drift_run(e, head);
    let e10 = run(e, head);
    assert(tail[0] == ps[ps.len() - 1]);
    assert(is_data_line(tail[0]));
    lemma_forced_reset(e10, tail[0]);
    assert(run(e10, tail) == run(step(e10, tail[0]).eng, tail.skip(1)));
    assert(tail.skip(1).len() == 0);
}

/// Clear empties the store and zeroes the mismatch counter, whatever the
/// prior state, and asks for no save.
pub proof fn lemma_clear_resets(e: EngineView)
    ensures
        apply_command(e, ControlCommandView::Clear).eng.store == StoreView::empty(),
        apply_command(e, ControlCommandView::Clear).eng.failed_format_counter == 0,
        apply_command(e, ControlCommandView::Clear).save is None,
{
}

} // verus!

