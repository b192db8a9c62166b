//! The socket broker's per-connection state machine and its host-facing
//! notifications. A connection moves Connecting, Open, Closing, Closed, and
//! never back; the decisions the connection loop takes on each event are a
//! pure function here, while the host runs the socket itself.
use vstd::prelude::*;
use vstd::string::*;
use crate::types::BrokerEvent;

verus! {

/// The lifecycle states of one connection.
#[derive(Debug, Clone, Copy, PartialEq, Eq)]
pub enum ConnState {
    Connecting,
    Open,
    Closing,
    Closed,
}

/// One event the connection loop can wake up on.
#[derive(Debug, Clone)]
pub enum ConnEvent {
    OutboundReady(String),
    OutboundClosed,
    InboundText(String),
    InboundBinary,
    InboundPing(Vec<u8>),
    InboundPong,
    InboundFrameOther,
    InboundClose,
    InboundError,
    InboundGone,
    HeartbeatTick,
    WriteFailed,
}

/// One action the loop carries out in response.
#[derive(Debug, Clone)]
pub enum ConnAction {
    WriteText(String),
    WritePong(Vec<u8>),
    RecordPing,
    NotifyMessage(String),
}

/// Where the connection goes on an event: an open connection starts closing
/// on a close frame, an error, a vanished peer, a closed outbound queue or a
/// failed write, and stays open otherwise; other states ignore events.
pub open spec fn next_state(s: ConnState, e: ConnEvent) -> ConnState {
    match s {
        ConnState::Open => match e {
            ConnEvent::OutboundClosed => ConnState::Closing,
            ConnEvent::InboundClose => ConnState::Closing,
            ConnEvent::InboundError => ConnState::Closing,
            ConnEvent::InboundGone => ConnState::Closing,
            ConnEvent::WriteFailed => ConnState::Closing,
            _ => ConnState::Open,
        },
        _ => s,
    }
}

/// How far along the lifecycle a state is.
pub open spec fn state_rank(s: ConnState) -> int {
    match s {
        ConnState::Connecting => 0,
        ConnState::Open => 1,
        ConnState::Closing => 2,
        ConnState::Closed => 3,
    }
}

/// Law: the lifecycle only moves forward; in particular no transition
/// leaves the Closed state.
pub proof fn lemma_lifecycle_monotone(s: ConnState, e: ConnEvent)
    ensures
        state_rank(next_state(s, e)) >= state_rank(s),
        s is Closed ==> next_state(s, e) is Closed,
{
}

/// Reacts to one event: a queued outbound message is written, an inbound
/// text frame refreshes the ping time and is notified to the host, an
/// inbound ping is answered with a pong, and the heartbeat tick is reserved
/// and does nothing.
pub fn on_event(state: ConnState, event: ConnEvent) -> (r: (ConnState, Vec<ConnAction>))
    ensures
        r.0 == next_state(state, event),
        state is Open ==> match event {
            ConnEvent::OutboundReady(msg) => r.1@.len() == 1 && (r.1@[0] matches
                ConnAction::WriteText(m) && m@ == msg@),
            ConnEvent::InboundText(text) => r.1@.len() == 2 && (r.1@[0] is RecordPing) && (
            r.1@[1] matches ConnAction::NotifyMessage(t) && t@ == text@),
            ConnEvent::InboundPing(payload) => r.1@.len() == 1 && (r.1@[0] matches
                ConnAction::WritePong(p) && p@ == payload@),
            _ => r.1@.len() == 0,
        },
        !(state is Open) ==> r.1@.len() == 0,
{
    match state {
        ConnState::Open => match event {
            ConnEvent::OutboundReady(msg) => {
                let mut acts: Vec<ConnAction> = Vec::new();
                acts.push(ConnAction::WriteText(msg));
                (ConnState::Open, acts)
            },
            ConnEvent::InboundText(text) => {
                let mut acts: Vec<ConnAction> = Vec::new();
                acts.push(ConnAction::RecordPing);
                acts.push(ConnAction::NotifyMessage(text));
                (ConnState::Open, acts)
            },
            ConnEvent::InboundPing(payload) => {
                let mut acts: Vec<ConnAction> = Vec::new();
                acts.push(ConnAction::WritePong(payload));
                (ConnState::Open, acts)
            },
            ConnEvent::OutboundClosed => (ConnState::Closing, Vec::new()),
            ConnEvent::InboundClose => (ConnState::Closing, Vec::new()),
            ConnEvent::InboundError => (ConnState::Closing, Vec::new()),
            ConnEvent::InboundGone => (ConnState::Closing, Vec::new()),
            ConnEvent::WriteFailed => (ConnState::Closing, Vec::new()),
            _ => (ConnState::Open, Vec::new()),
        },
        s => (s, Vec::new()),
    }
}

/// Completes the transport handshake: the connection opens.
pub fn complete_handshake(state: ConnState) -> (r: ConnState)
    requires
        state is Connecting,
    ensures
        r is Open,
{
    ConnState::Open
}

/// Ends the connection after its loop exits: the registry entry is gone and
/// the closure notification is owed.
pub fn finalize(state: ConnState) -> (r: ConnState)
    requires
        state is Closing,
    ensures
        r is Closed,
{
    ConnState::Closed
}

// ---------- host notifications ----------

/// The escape of one character inside a JSON string literal.
pub open spec fn esc_char(c: char) -> Seq<char> {
    if c == '"' {
        seq!['\\', '"']
    } else if c == '\\' {
        seq!['\\', '\\']
    } else if c == '\n' {
        seq!['\\', 'n']
    } else if c == '\r' {
        seq!['\\', 'r']
    } else if c == '\t' {
        seq!['\\', 't']
    } else if (c as u32) < 32 {
        seq!['\\', 'u', '0', '0', hex_char((c as u32) / 16), hex_char((c as u32) % 16)]
    } else {
        seq![c]
    }
}

/// The lower-case hexadecimal digit of a value below sixteen.
pub open spec fn hex_char(d: u32) -> char {
    if d == 0 {
        '0'
    } else if d == 1 {
        '1'
    } else if d == 2 {
        '2'
    } else if d == 3 {
        '3'
    } else if d == 4 {
        '4'
    } else if d == 5 {
        '5'
    } else if d == 6 {
        '6'
    } else if d == 7 {
        '7'
    } else if d == 8 {
        '8'
    } else if d == 9 {
        '9'
    } else if d == 10 {
        'a'
    } else if d == 11 {
        'b'
    } else if d == 12 {
        'c'
    } else if d == 13 {
        'd'
    } else if d == 14 {
        'e'
    } else {
        'f'
    }
}

/// The body of a JSON string literal holding `s`.
pub open spec fn json_escaped(s: Seq<char>) -> Seq<char>
    decreases s.len(),
{
    if s.len() == 0 {
        Seq::empty()
    } else {
        json_escaped(s.drop_last()) + esc_char(s.last())
    }
}

fn hex_digit_str(d: u32) -> (r: &'static str)
    requires
        d < 16,
    ensures
        r@ == seq![hex_char(d)],
{
    proof {
        reveal_strlit("0");
        reveal_strlit("1");
        reveal_strlit("2");
        reveal_strlit("3");
        reveal_strlit("4");
        reveal_strlit("5");
        reveal_strlit("6");
        reveal_strlit("7");
        reveal_strlit("8");
        reveal_strlit("9");
        reveal_strlit("a");
        reveal_strlit("b");
        reveal_strlit("c");
        reveal_strlit("d");
        reveal_strlit("e");
        reveal_strlit("f");
    }
    if d == 0 {
        "0"
    } else if d == 1 {
        "1"
    } else if d == 2 {
        "2"
    } else if d == 3 {
        "3"
    } else if d == 4 {
        "4"
    } else if d == 5 {
        "5"
    } else if d == 6 {
        "6"
    } else if d == 7 {
        "7"
    } else if d == 8 {
        "8"
    } else if d == 9 {
        "9"
    } else if d == 10 {
        "a"
    } else if d == 11 {
        "b"
    } else if d == 12 {
        "c"
    } else if d == 13 {
        "d"
    } else if d == 14 {
        "e"
    } else {
        "f"
    }
}

/// Escapes `s` for inclusion in a JSON string literal.
pub fn escape_json(s: &str) -> (r: String)
    ensures
        r@ == json_escaped(s@),
{
    let n = s.unicode_len();
    let mut out = String::new();
    let mut i: usize = 0;
    proof {
        assert(s@.subrange(0, 0) =~= Seq::<char>::empty());
        assert(json_escaped(s@.subrange(0, 0)) =~= Seq::<char>::empty());
    }
    while i < n
        invariant
            n == s@.len(),
            i <= n,
            out@ == json_escaped(s@.subrange(0, i as int)),
        decreases n - i,
    {
        proof {
            assert(s@.subrange(0, i + 1).drop_last() =~= s@.subrange(0, i as int));
            assert(s@.subrange(0, i + 1).last() == s@[i as int]);
        }
        let c = s.get_char(i);
        if c == '"' {
            proof {
                reveal_strlit("\\\"");
            }
            out.append("\\\"");
        } else if c == '\\' {
            proof {
                reveal_strlit("\\\\");
            }
            out.append("\\\\");
        } else if c == '\n' {
            proof {
                reveal_strlit("\\n");
            }
            out.append("\\n");
        } else if c == '\r' {
            proof {
                reveal_strlit("\\r");
            }
            out.append("\\r");
        } else if c == '\t' {
            proof {
                reveal_strlit("\\t");
            }
            out.append("\\t");
        } else if (c as u32) < 32 {
            proof {
                reveal_strlit("\\u00");
            }
            out.append("\\u00");
            out.append(hex_digit_str((c as u32) / 16));
            out.append(hex_digit_str((c as u32) % 16));
            proof {
                assert(out@ =~= json_escaped(s@.subrange(0, i + 1)));
            }
        } else {
            let piece = s.substring_char(i, i + 1);
            proof {
                assert(piece@ =~= seq![s@[i as int]]);
            }
            out.append(piece);
        }
        proof {
            assert(out@ =~= json_escaped(s@.subrange(0, i + 1)));
        }
        i = i + 1;
    }
    proof {
        assert(s@.subrange(0, n as int) =~= s@);
    }
    out
}

/// The tagged JSON a broker event is sent to the host as.
pub open spec fn broker_event_json(e: BrokerEvent) -> Seq<char> {
    match e {
        BrokerEvent::Connected { connection_id } => "{\"type\":\"Connected\",\"connectionId\":\""@
            + json_escaped(connection_id@) + "\"}"@,
        BrokerEvent::Message { connection_id, data } => "{\"type\":\"Message\",\"connectionId\":\""@
            + json_escaped(connection_id@) + "\",\"data\":\""@ + json_escaped(data@) + "\"}"@,
        BrokerEvent::Closed { connection_id } => "{\"type\":\"Closed\",\"connectionId\":\""@
            + json_escaped(connection_id@) + "\"}"@,
    }
}

impl BrokerEvent {
    /// Encodes the event as the tagged JSON the host receives.
    pub fn to_json(&self) -> (r: String)
        ensures
            r@ == broker_event_json(*self),
    {
        match self {
            BrokerEvent::Connected { connection_id } => {
                let mut out = "{\"type\":\"Connected\",\"connectionId\":\"".to_owned();
                let esc = escape_json(connection_id.as_str());
                out.append(esc.as_str());
                out.append("\"}");
                out
            },
            BrokerEvent::Message { connection_id, data } => {
                let mut out = "{\"type\":\"Message\",\"connectionId\":\"".to_owned();
                let esc = escape_json(connection_id.as_str());
                out.append(esc.as_str());
                out.append("\",\"data\":\"");
                let esc2 = escape_json(data.as_str());
                out.append(esc2.as_str());
                out.append("\"}");
                out
            },
            BrokerEvent::Closed { connection_id } => {
                let mut out = "{\"type\":\"Closed\",\"connectionId\":\"".to_owned();
                let esc = escape_json(connection_id.as_str());
                out.append(esc.as_str());
                out.append("\"}");
                out
            },
        }
    }
}

} // verus!
