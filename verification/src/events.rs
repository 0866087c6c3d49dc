//! Typed events and the decisions of the reader and the dispatcher.
//!
//! A connection reader trims each received line and classifies it by
//! prefix into exactly one event; the dispatcher turns a chat message
//! into the line shown locally and the event pushed to the frontend.

use vstd::prelude::*;

use crate::protocol::{find_pipe, join_prefix, peers_prefix, scan_pipe, trim, trim_chars};
use crate::strutil::{chars_have_prefix, chars_to_string, str_to_chars};

verus! {

/// Events emitted by connection readers and consumed by the
/// dispatcher.
#[derive(Debug)]
pub enum PeerEvent {
    Message { node_id: String, msg: String },
    Join { conn_id: String, msg: String },
    Peers { msg: String },
    Connected { node_id: String },
    Disconnected { node_id: String },
    Error { node_id: String, error: String },
}

/// Events pushed to the frontend over the HTTP surface.
#[derive(Debug)]
pub enum FrontendEvent {
    PeerJoined(String),
    PeerDisconnected(String),
    MessageReceived { from: String, content: String },
}

/// The prefix marking a chat message line.
pub open spec fn msg_prefix() -> Seq<char> {
    seq!['M', 'S', 'G']
}

/// Whether `s` starts with `p`.
pub open spec fn has_prefix(s: Seq<char>, p: Seq<char>) -> bool {
    s.len() >= p.len() && s.take(p.len() as int) == p
}

/// The display name shown for a peer without one.
pub open spec fn stranger() -> Seq<char> {
    seq!['S', 't', 'r', 'a', 'n', 'g', 'e', 'r']
}

/// Classifies one received line, as the reader does: the line is
/// trimmed; an empty line yields nothing; `JOIN|` lines carry the
/// connection id, `PEERS|` lines stand alone, `MSG` lines carry the
/// node id currently declared for the connection; anything else is
/// dropped.
pub fn classify_line(conn_id: &String, node_id: &String, line: &String) -> (r: Option<PeerEvent>)
    ensures
        ({
            let t = trim(line@);
            match r {
                None => t.len() == 0 || (!has_prefix(t, join_prefix()) && !has_prefix(
                    t,
                    peers_prefix(),
                ) && !has_prefix(t, msg_prefix())),
                Some(ev) => t.len() > 0 && match ev {
                    PeerEvent::Join { conn_id: c, msg } => has_prefix(t, join_prefix()) && c@
                        == conn_id@ && msg@ == t,
                    PeerEvent::Peers { msg } => !has_prefix(t, join_prefix()) && has_prefix(
                        t,
                        peers_prefix(),
                    ) && msg@ == t,
                    PeerEvent::Message { node_id: n, msg } => !has_prefix(t, join_prefix())
                        && !has_prefix(t, peers_prefix()) && has_prefix(t, msg_prefix()) && n@
                        == node_id@ && msg@ == t,
                    _ => false,
                },
            }
        }),
{
    let chars = str_to_chars(line.as_str());
    let t = trim_chars(&chars);
    if t.len() == 0 {
        return None;
    }
    let mut pj: Vec<char> = Vec::new();
    pj.push('J');
    pj.push('O');
    pj.push('I');
    pj.push('N');
    pj.push('|');
    let mut pp: Vec<char> = Vec::new();
    pp.push('P');
    pp.push('E');
    pp.push('E');
    pp.push('R');
    pp.push('S');
    pp.push('|');
    let mut pm: Vec<char> = Vec::new();
    pm.push('M');
    pm.push('S');
    pm.push('G');
    proof {
        assert(pj@ =~= join_prefix());
        assert(pp@ =~= peers_prefix());
        assert(pm@ =~= msg_prefix());
    }
    let msg = chars_to_string(&t);
    if chars_have_prefix(&t, &pj) {
        Some(PeerEvent::Join { conn_id: conn_id.clone(), msg })
    } else if chars_have_prefix(&t, &pp) {
        Some(PeerEvent::Peers { msg })
    } else if chars_have_prefix(&t, &pm) {
        Some(PeerEvent::Message { node_id: node_id.clone(), msg })
    } else {
        None
    }
}

/// Renders a chat message, as the dispatcher does: the line is split
/// at its first `|`; without one, nothing is shown.  The sender is
/// the peer's display name, or `Stranger` when it has none; the local
/// line is `<name>: <body>` and the frontend learns of the message.
pub fn render_message(uname: &Option<String>, msg: &String) -> (r: Option<(String, FrontendEvent)>)
    ensures
        ({
            let p = find_pipe(msg@);
            match r {
                None => p >= msg@.len(),
                Some((display, fe)) => p < msg@.len() && {
                    let content = msg@.skip(p + 1);
                    let from = match uname.deep_view() {
                        Some(u) => u,
                        None => stranger(),
                    };
                    &&& display@ == from + seq![':', ' '] + content
                    &&& fe matches FrontendEvent::MessageReceived { from: f, content: c } && f@
                        == from && c@ == content
                },
            }
        }),
{
    let chars = str_to_chars(msg.as_str());
    proof {
        assert(chars@.skip(0) =~= chars@);
    }
    let p = scan_pipe(&chars, 0);
    if p >= chars.len() {
        return None;
    }
    let from: String = match uname {
        Some(u) => u.clone(),
        None => {
            let s = String::from_str("Stranger");
            proof {
                reveal_strlit("Stranger");
                assert(s@ =~= stranger());
            }
            s
        },
    };
    let mut out = str_to_chars(from.as_str());
    out.push(':');
    out.push(' ');
    let mut content: Vec<char> = Vec::new();
    let mut k: usize = p + 1;
    while k < chars.len()
        invariant
            p + 1 <= k <= chars@.len(),
            content@ == chars@.subrange(p + 1, k as int),
        decreases chars@.len() - k,
    {
        content.push(chars[k]);
        proof {
            assert(content@ =~= chars@.subrange(p + 1, k + 1));
        }
        k = k + 1;
    }
    proof {
        assert(content@ =~= chars@.skip(p + 1));
    }
    let content_s = chars_to_string(&content);
    let mut display = out;
    let mut ctail = str_to_chars(content_s.as_str());
    display.append(&mut ctail);
    proof {
        assert(display@ =~= from@ + seq![':', ' '] + chars@.skip(p + 1));
    }
    let display_s = chars_to_string(&display);
    Some(
        (
            display_s,
            FrontendEvent::MessageReceived { from, content: content_s },
        ),
    )
}

} // verus!
