use vstd::prelude::*;

use crate::numbers::{
    float_token_ok, i32_of_spec, is_float_token, parse_i32, parse_usize, usize_of_spec,
};
use crate::text::{strings_view, trim_spec, trim_str};

verus! {

/// A decoded instrument protocol event, one case per opcode of the closed
/// vocabulary. A numeric result that the instrument reports as a floating
/// point value is carried as its validated text, for a collaborator to
/// interpret.
pub enum QcmEvent {
    BiasDetectStart,
    BiasResult(i32),
    PhaseBaseDetectStart,
    PhaseBaseResult(String),
    ShotIqStart(usize),
    ShotIqFinish(usize),
    RealtimeIqStart(usize),
    RealtimeIqFinish(usize),
    TrackStart(usize),
    MultiParamsStart(usize),
}

/// The mathematical shape of a decoded event.
pub ghost enum QcmEventView {
    BiasDetectStart,
    BiasResult(i32),
    PhaseBaseDetectStart,
    PhaseBaseResult(Seq<char>),
    ShotIqStart(usize),
    ShotIqFinish(usize),
    RealtimeIqStart(usize),
    RealtimeIqFinish(usize),
    TrackStart(usize),
    MultiParamsStart(usize),
}

impl View for QcmEvent {
    type V = QcmEventView;

    open spec fn view(&self) -> QcmEventView {
        match self {
            QcmEvent::BiasDetectStart => QcmEventView::BiasDetectStart,
            QcmEvent::BiasResult(v) => QcmEventView::BiasResult(*v),
            QcmEvent::PhaseBaseDetectStart => QcmEventView::PhaseBaseDetectStart,
            QcmEvent::PhaseBaseResult(t) => QcmEventView::PhaseBaseResult(t@),
            QcmEvent::ShotIqStart(v) => QcmEventView::ShotIqStart(*v),
            QcmEvent::ShotIqFinish(v) => QcmEventView::ShotIqFinish(*v),
            QcmEvent::RealtimeIqStart(v) => QcmEventView::RealtimeIqStart(*v),
            QcmEvent::RealtimeIqFinish(v) => QcmEventView::RealtimeIqFinish(*v),
            QcmEvent::TrackStart(v) => QcmEventView::TrackStart(*v),
            QcmEvent::MultiParamsStart(v) => QcmEventView::MultiParamsStart(*v),
        }
    }
}

/// The view of an optional decoded event.
pub open spec fn opt_event_view(r: Option<QcmEvent>) -> Option<QcmEventView> {
    match r {
        Some(e) => Some(e@),
        None => None,
    }
}

/// The integer argument of a command, when the token after the opcode
/// trims and reads as one.
pub open spec fn arg_i32(toks: Seq<Seq<char>>) -> Option<i32> {
    if toks.len() >= 2 {
        i32_of_spec(trim_spec(toks[1]))
    } else {
        None
    }
}

/// The index argument of a command, when the token after the opcode trims
/// and reads as one.
pub open spec fn arg_usize(toks: Seq<Seq<char>>) -> Option<usize> {
    if toks.len() >= 2 {
        usize_of_spec(trim_spec(toks[1]))
    } else {
        None
    }
}

/// The numeric-text argument of a command, when the token after the opcode
/// trims to a token the float grammar accepts.
pub open spec fn arg_float(toks: Seq<Seq<char>>) -> Option<Seq<char>> {
    if toks.len() >= 2 && float_token_ok(trim_spec(toks[1])) {
        Some(trim_spec(toks[1]))
    } else {
        None
    }
}

/// What the command decoder yields for the tokens of a command line: the
/// first token selects the opcode; a missing or unreadable argument, or an
/// opcode outside the vocabulary, yields no event.
pub open spec fn decode_spec(toks: Seq<Seq<char>>) -> Option<QcmEventView> {
    if toks.len() == 0 {
        None
    } else {
        let op = toks[0];
        if op == "BIASST"@ {
            Some(QcmEventView::BiasDetectStart)
        } else if op == "BIAS"@ {
            match arg_i32(toks) {
                Some(v) => Some(QcmEventView::BiasResult(v)),
                None => None,
            }
        } else if op == "PHAST"@ {
            Some(QcmEventView::PhaseBaseDetectStart)
        } else if op == "PHABASE"@ {
            match arg_float(toks) {
                Some(t) => Some(QcmEventView::PhaseBaseResult(t)),
                None => None,
            }
        } else if op == "SHOTST"@ {
            match arg_usize(toks) {
                Some(v) => Some(QcmEventView::ShotIqStart(v)),
                None => None,
            }
        } else if op == "SHOTFIN"@ {
            match arg_usize(toks) {
                Some(v) => Some(QcmEventView::ShotIqFinish(v)),
                None => None,
            }
        } else if op == "RTST"@ {
            match arg_usize(toks) {
                Some(v) => Some(QcmEventView::RealtimeIqStart(v)),
                None => None,
            }
        } else if op == "RTFIN"@ {
            match arg_usize(toks) {
                Some(v) => Some(QcmEventView::RealtimeIqFinish(v)),
                None => None,
            }
        } else if op == "TRACKST"@ {
            match arg_usize(toks) {
                Some(v) => Some(QcmEventView::TrackStart(v)),
                None => None,
            }
        } else if op == "MULPARAST"@ {
            match arg_usize(toks) {
                Some(v) => Some(QcmEventView::MultiParamsStart(v)),
                None => None,
            }
        } else {
            None
        }
    }
}

/// Whether the string holds exactly the characters of the literal.
fn string_eq_lit(a: &String, lit: &str) -> (r: bool)
    ensures
        r == (a@ == lit@),
{
    let s = String::from_str(lit);
    *a == s
}

/// The trimmed second token, when there is one.
fn arg_token(toks: &Vec<String>) -> (r: Option<String>)
    ensures
        match r {
            Some(t) => toks@.len() >= 2 && t@ == trim_spec(toks@[1]@),
            None => toks@.len() < 2,
        },
{
    if toks.len() >= 2 {
        Some(trim_str(toks[1].as_str()))
    } else {
        None
    }
}

/// Decodes the tokens of a command line into a protocol event, or nothing
/// when the opcode or its argument does not fit the vocabulary.
pub fn decode_command(toks: &Vec<String>) -> (r: Option<QcmEvent>)
    ensures
        opt_event_view(r) == decode_spec(strings_view(toks@)),
{
    let ghost tv = strings_view(toks@);
    if toks.len() == 0 {
        return None;
    }
    let op = &toks[0];
    proof {
        assert(tv[0] == toks@[0]@);
        assert(tv.len() >= 2 ==> tv[1] == toks@[1]@);
    }
    if string_eq_lit(op, "BIASST") {
        Some(QcmEvent::BiasDetectStart)
    } else if string_eq_lit(op, "BIAS") {
        match arg_token(toks) {
            Some(t) => match parse_i32(t.as_str()) {
                Some(v) => Some(QcmEvent::BiasResult(v)),
                None => None,
            },
            None => None,
        }
    } else if string_eq_lit(op, "PHAST") {
        Some(QcmEvent::PhaseBaseDetectStart)
    } else if string_eq_lit(op, "PHABASE") {
        match arg_token(toks) {
            Some(t) => {
                if is_float_token(t.as_str()) {
                    Some(QcmEvent::PhaseBaseResult(t))
                } else {
                    None
                }
            },
            None => None,
        }
    } else if string_eq_lit(op, "SHOTST") {
        match arg_token(toks) {
            Some(t) => match parse_usize(t.as_str()) {
                Some(v) => Some(QcmEvent::ShotIqStart(v)),
                None => None,
            },
            None => None,
        }
    } else if string_eq_lit(op, "SHOTFIN") {
        match arg_token(toks) {
            Some(t) => match parse_usize(t.as_str()) {
                Some(v) => Some(QcmEvent::ShotIqFinish(v)),
                None => None,
            },
            None => None,
        }
    } else if string_eq_lit(op, "RTST") {
        match arg_token(toks) {
            Some(t) => match parse_usize(t.as_str()) {
                Some(v) => Some(QcmEvent::RealtimeIqStart(v)),
                None => None,
            },
            None => None,
        }
    } else if string_eq_lit(op, "RTFIN") {
        match arg_token(toks) {
            Some(t) => match parse_usize(t.as_str()) {
                Some(v) => Some(QcmEvent::RealtimeIqFinish(v)),
                None => None,
            },
            None => None,
        }
    } else if string_eq_lit(op, "TRACKST") {
        match arg_token(toks) {
            Some(t) => match parse_usize(t.as_str()) {
                Some(v) => Some(QcmEvent::TrackStart(v)),
                None => None,
            },
            None => None,
        }
    } else if string_eq_lit(op, "MULPARAST") {
        match arg_token(toks) {
            Some(t) => match parse_usize(t.as_str()) {
                Some(v) => Some(QcmEvent::MultiParamsStart(v)),
                None => None,
            },
            None => None,
        }
    } else {
        None
    }
}

/// The fixed label set that a protocol start event announces for the
/// measurement about to run, or nothing for an event that is no start.
pub open spec fn start_labels(e: QcmEventView) -> Option<Seq<Seq<char>>> {
    match e {
        QcmEventView::BiasDetectStart => Some(seq!["Cur. Bias"@, "Avg. Bias"@]),
        QcmEventView::PhaseBaseDetectStart => Some(
            seq!["Cur. Phase"@, "Avg. Phase"@, "Cur. Amp"@],
        ),
        QcmEventView::ShotIqStart(_) => Some(seq!["Freq."@, "G Resp."@, "B Resp."@]),
        QcmEventView::RealtimeIqStart(_) => Some(seq!["Freq."@, "Resp."@]),
        QcmEventView::TrackStart(_) => Some(seq!["Cur. Reson. Freq."@, "Cur. B Resp."@]),
        QcmEventView::MultiParamsStart(_) => Some(
            seq!["Cur. Reson. Freq."@, "Max. G Resp."@, "Q Factor"@],
        ),
        _ => None,
    }
}

/// Builds the label set of a start event.
pub fn start_label_set(e: &QcmEvent) -> (r: Option<Vec<String>>)
    ensures
        match r {
            Some(v) => start_labels(e@) == Some(strings_view(v@)),
            None => start_labels(e@) is None,
        },
{
    match e {
        QcmEvent::BiasDetectStart => {
            let v = vec![String::from_str("Cur. Bias"), String::from_str("Avg. Bias")];
            proof {
                assert(strings_view(v@) =~= seq!["Cur. Bias"@, "Avg. Bias"@]);
            }
            Some(v)
        },
        QcmEvent::PhaseBaseDetectStart => {
            let v = vec![
                String::from_str("Cur. Phase"),
                String::from_str("Avg. Phase"),
                String::from_str("Cur. Amp"),
            ];
            proof {
                assert(strings_view(v@) =~= seq!["Cur. Phase"@, "Avg. Phase"@, "Cur. Amp"@]);
            }
            Some(v)
        },
        QcmEvent::ShotIqStart(_) => {
            let v = vec![
                String::from_str("Freq."),
                String::from_str("G Resp."),
                String::from_str("B Resp."),
            ];
            proof {
                assert(strings_view(v@) =~= seq!["Freq."@, "G Resp."@, "B Resp."@]);
            }
            Some(v)
        },
        QcmEvent::RealtimeIqStart(_) => {
            let v = vec![String::from_str("Freq."), String::from_str("Resp.")];
            proof {
                assert(strings_view(v@) =~= seq!["Freq."@, "Resp."@]);
            }
            Some(v)
        },
        QcmEvent::TrackStart(_) => {
            let v = vec![String::from_str("Cur. Reson. Freq."), String::from_str("Cur. B Resp.")];
            proof {
                assert(strings_view(v@) =~= seq!["Cur. Reson. Freq."@, "Cur. B Resp."@]);
            }
            Some(v)
        },
        QcmEvent::MultiParamsStart(_) => {
            let v = vec![
                String::from_str("Cur. Reson. Freq."),
                String::from_str("Max. G Resp."),
                String::from_str("Q Factor"),
            ];
            proof {
                assert(strings_view(v@) =~= seq![
                    "Cur. Reson. Freq."@,
                    "Max. G Resp."@,
                    "Q Factor"@,
                ]);
            }
            Some(v)
        },
        _ => None,
    }
}

} // verus!
