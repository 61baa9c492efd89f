//! One connection of the page: it pairs by its first frame, then sends input.
use vstd::prelude::*;
use crate::command::{translate, translation};
use crate::command_laws::{commands_have_fixed_shapes, is_command};
use crate::pairing::{auth_accepts, auth_frame_ok};
use crate::text::{all_texts, chars_of, copy_of, is_text, text_of};
use crate::windows::{pointer_message, pointer_reply, window_list, window_list_json};
use crate::words::{trim, trimmed};

verus! {

/// How far a connection has come.
#[derive(Clone, Copy, PartialEq, Eq, Debug, Structural)]
pub enum Phase {
    /// Nothing has been read.
    Pairing,
    /// The first frame held the PIN.
    Open,
    /// Over.
    Closed,
}

/// What a read of the connection gives.
pub enum Incoming {
    Text(String),
    /// A frame of another kind.
    Other,
    /// An error, or no frame in time.
    Failed,
}

/// What is to be done next.
pub enum Action {
    /// Send `auth ok`, and lift the read timeout.
    Welcome,
    /// Send `auth fail` and close.
    Refuse,
    /// Ask the compositor for its windows and send the list.
    ListWindows,
    /// Ask the compositor where the pointer is and send that.
    LocatePointer,
    /// Send these commands to the compositor.
    Control(Vec<String>),
    /// Read on.
    Nothing,
    /// Stop.
    Hangup,
}

/// A read, as the laws see it.
pub enum Read {
    Text(Seq<char>),
    Other,
    Failed,
}

/// An action, as the laws see it.
pub enum Deed {
    Welcome,
    Refuse,
    ListWindows,
    LocatePointer,
    Control(Seq<Seq<char>>),
    Nothing,
    Hangup,
}

impl View for Incoming {
    type V = Read;

    open spec fn view(&self) -> Read {
        match self {
            Incoming::Text(t) => Read::Text(t@),
            Incoming::Other => Read::Other,
            Incoming::Failed => Read::Failed,
        }
    }
}

impl View for Action {
    type V = Deed;

    open spec fn view(&self) -> Deed {
        match self {
            Action::Welcome => Deed::Welcome,
            Action::Refuse => Deed::Refuse,
            Action::ListWindows => Deed::ListWindows,
            Action::LocatePointer => Deed::LocatePointer,
            Action::Control(v) => Deed::Control(all_texts(v@)),
            Action::Nothing => Deed::Nothing,
            Action::Hangup => Deed::Hangup,
        }
    }
}

/// What an open connection's text frame asks for.
pub open spec fn request(text: Seq<char>) -> Deed {
    if trim(text) == "wl"@ {
        Deed::ListWindows
    } else if trim(text) == "pl"@ {
        Deed::LocatePointer
    } else {
        match translation(text) {
            Some(cs) => Deed::Control(cs),
            None => Deed::Nothing,
        }
    }
}

/// Whether a read is the frame that pairs.
pub open spec fn pairs(read: Read, pin: Seq<char>) -> bool {
    match read {
        Read::Text(t) => auth_accepts(t, pin),
        _ => false,
    }
}

/// The phase after a read, and what is done about it.
pub open spec fn reaction(phase: Phase, read: Read, pin: Seq<char>) -> (Phase, Deed) {
    match phase {
        Phase::Pairing => if pairs(read, pin) {
            (Phase::Open, Deed::Welcome)
        } else {
            (Phase::Closed, Deed::Refuse)
        },
        Phase::Open => match read {
            Read::Text(t) => (Phase::Open, request(t)),
            Read::Other => (Phase::Open, Deed::Nothing),
            Read::Failed => (Phase::Closed, Deed::Hangup),
        },
        Phase::Closed => (Phase::Closed, Deed::Hangup),
    }
}

/// A connection of the page.
pub struct Session {
    phase: Phase,
}

impl Session {
    pub closed spec fn phase(&self) -> Phase {
        self.phase
    }

    /// A new connection, not yet paired.
    pub fn new() -> (r: Session)
        ensures
            r.phase() == Phase::Pairing,
    {
        Session { phase: Phase::Pairing }
    }

    /// What a read means for the connection.
    pub fn on_read(&mut self, read: Incoming, pin: &str) -> (r: Action)
        ensures
            (final(self).phase(), r@) == reaction(old(self).phase(), read@, pin@),
    {
        match self.phase {
            Phase::Pairing => {
                let ok = match &read {
                    Incoming::Text(t) => auth_frame_ok(t.as_str(), pin),
                    _ => false,
                };
                if ok {
                    self.phase = Phase::Open;
                    Action::Welcome
                } else {
                    self.phase = Phase::Closed;
                    Action::Refuse
                }
            },
            Phase::Open => match read {
                Incoming::Text(t) => {
                    let c = chars_of(t.as_str());
                    let word = trimmed(c.as_slice());
                    if is_text(word, "wl") {
                        Action::ListWindows
                    } else if is_text(word, "pl") {
                        Action::LocatePointer
                    } else {
                        match translate(t.as_str()) {
                            Some(v) => Action::Control(v),
                            None => Action::Nothing,
                        }
                    }
                },
                Incoming::Other => Action::Nothing,
                Incoming::Failed => {
                    self.phase = Phase::Closed;
                    Action::Hangup
                },
            },
            Phase::Closed => Action::Hangup,
        }
    }
}

/// The command behind a window list.
pub fn windows_command() -> (r: String)
    ensures
        r@ == "windows --json"@,
{
    copy_of("windows --json")
}

/// The command behind a pointer location.
pub fn pointer_command() -> (r: String)
    ensures
        r@ == "pointer-location"@,
{
    copy_of("pointer-location")
}

/// The commands that an action sends to the compositor.
pub open spec fn commands_of(deed: Deed) -> Seq<Seq<char>> {
    match deed {
        Deed::Control(cs) => cs,
        Deed::ListWindows => seq!["windows --json"@],
        Deed::LocatePointer => seq!["pointer-location"@],
        _ => seq![],
    }
}

/// What an action sends to the page, the compositor having replied so to its
/// command, or not at all.
pub open spec fn told(deed: Deed, reply: Option<Seq<char>>) -> Option<Seq<char>> {
    match deed {
        Deed::Welcome => Some("auth ok"@),
        Deed::Refuse => Some("auth fail"@),
        Deed::ListWindows => Some(
            window_list(
                match reply {
                    Some(text) => text,
                    None => seq![],
                },
            ),
        ),
        Deed::LocatePointer => match reply {
            Some(text) => pointer_message(text),
            None => None,
        },
        _ => None,
    }
}

impl Action {
    /// The commands to send to the compositor.
    pub fn commands(&self) -> (r: Vec<String>)
        ensures
            all_texts(r@) == commands_of(self@),
    {
        let mut out: Vec<String> = Vec::new();
        match self {
            Action::Control(cmds) => {
                let mut i: usize = 0;
                while i < cmds.len()
                    invariant
                        i <= cmds.len(),
                        all_texts(out@) == all_texts(cmds@).take(i as int),
                    decreases cmds.len() - i,
                {
                    let ghost before = all_texts(out@);
                    out.push(copy_of(cmds[i].as_str()));
                    assert(all_texts(out@) =~= before.push(cmds@[i as int]@));
                    assert(all_texts(cmds@)[i as int] == cmds@[i as int]@);
                    i += 1;
                    assert(all_texts(cmds@).take(i as int) =~= before.push(cmds@[i - 1]@));
                }
                assert(all_texts(out@) =~= all_texts(cmds@));
            },
            Action::ListWindows => {
                out.push(windows_command());
            },
            Action::LocatePointer => {
                out.push(pointer_command());
            },
            _ => {},
        }
        assert(all_texts(out@) =~= commands_of(self@));
        out
    }

    /// What to send to the page, given what the compositor replied.
    pub fn reply(&self, reply: Option<&str>) -> (r: Option<String>)
        ensures
            match r {
                Some(text) => told(self@, text_of(reply)) == Some(text@),
                None => told(self@, text_of(reply)) is None,
            },
    {
        match self {
            Action::Welcome => Some(copy_of("auth ok")),
            Action::Refuse => Some(copy_of("auth fail")),
            Action::ListWindows => match reply {
                Some(text) => Some(window_list_json(text)),
                None => {
                    proof {
                        reveal_strlit("");
                        assert(""@ =~= seq![]);
                    }
                    Some(window_list_json(""))
                },
            },
            Action::LocatePointer => match reply {
                Some(text) => pointer_reply(text),
                None => None,
            },
            _ => None,
        }
    }
}

// ---- laws --------------------------------------------------------------------------------------

/// All that a connection in `phase` has sent to the compositor once it has read `reads`.
pub open spec fn forwarded(phase: Phase, reads: Seq<Read>, pin: Seq<char>) -> Seq<Seq<char>>
    decreases reads.len(),
{
    if reads.len() == 0 {
        seq![]
    } else {
        let (next, deed) = reaction(phase, reads[0], pin);
        commands_of(deed) + forwarded(next, reads.drop_first(), pin)
    }
}

/// A closed connection sends nothing, whatever it reads.
pub proof fn a_closed_connection_is_silent(reads: Seq<Read>, pin: Seq<char>)
    ensures
        forwarded(Phase::Closed, reads, pin) == Seq::<Seq<char>>::empty(),
    decreases reads.len(),
{
    if reads.len() > 0 {
        a_closed_connection_is_silent(reads.drop_first(), pin);
        assert(forwarded(Phase::Closed, reads, pin) =~= Seq::<Seq<char>>::empty());
    }
}

/// No input is injected without pairing: unless the first thing read is the
/// frame `auth <pin>`, nothing is ever sent to the compositor, whatever else
/// is read.
pub proof fn nothing_is_injected_unpaired(reads: Seq<Read>, pin: Seq<char>)
    requires
        reads.len() > 0 ==> !pairs(reads[0], pin),
    ensures
        forwarded(Phase::Pairing, reads, pin) == Seq::<Seq<char>>::empty(),
{
    if reads.len() > 0 {
        a_closed_connection_is_silent(reads.drop_first(), pin);
        assert(forwarded(Phase::Pairing, reads, pin) =~= Seq::<Seq<char>>::empty());
    }
}

/// The first frame is answered `auth ok` if it pairs, and `auth fail` if not.
pub proof fn the_first_frame_is_answered(read: Read, pin: Seq<char>, reply: Option<Seq<char>>)
    ensures
        told(reaction(Phase::Pairing, read, pin).1, reply) == Some(
            if pairs(read, pin) {
                "auth ok"@
            } else {
                "auth fail"@
            },
        ),
{
}

/// A paired connection is heard: what its next frame means is sent, and it goes
/// on reading.
pub proof fn a_paired_connection_is_heard(
    first: Read,
    text: Seq<char>,
    rest: Seq<Read>,
    pin: Seq<char>,
)
    requires
        pairs(first, pin),
    ensures
        forwarded(Phase::Pairing, seq![first, Read::Text(text)] + rest, pin) == commands_of(
            request(text),
        ) + forwarded(Phase::Open, rest, pin),
{
    let reads = seq![first, Read::Text(text)] + rest;
    assert(reads[0] == first);
    assert(reads.drop_first()[0] == Read::Text(text));
    assert(reads.drop_first().drop_first() =~= rest);
    assert(forwarded(Phase::Open, reads.drop_first(), pin) == commands_of(request(text))
        + forwarded(Phase::Open, rest, pin));
    assert(forwarded(Phase::Pairing, reads, pin) =~= forwarded(
        Phase::Open,
        reads.drop_first(),
        pin,
    ));
}

/// Whatever a connection reads, each command it sends has one of the fixed
/// shapes or is one of the two fixed questions.
pub proof fn only_known_commands_are_forwarded(phase: Phase, reads: Seq<Read>, pin: Seq<char>)
    ensures
        forall|i: int|
            0 <= i < forwarded(phase, reads, pin).len() ==> {
                let c = #[trigger] forwarded(phase, reads, pin)[i];
                is_command(c) || c == "windows --json"@ || c == "pointer-location"@
            },
    decreases reads.len(),
{
    if reads.len() > 0 {
        let (next, deed) = reaction(phase, reads[0], pin);
        let rest = forwarded(next, reads.drop_first(), pin);
        only_known_commands_are_forwarded(next, reads.drop_first(), pin);
        if let Read::Text(t) = reads[0] {
            commands_have_fixed_shapes(t);
        }
        assert forall|i: int| 0 <= i < forwarded(phase, reads, pin).len() implies {
            let c = #[trigger] forwarded(phase, reads, pin)[i];
            is_command(c) || c == "windows --json"@ || c == "pointer-location"@
        } by {
            let cs = commands_of(deed);
            if i < cs.len() {
                assert(forwarded(phase, reads, pin)[i] == cs[i]);
            } else {
                assert(forwarded(phase, reads, pin)[i] == rest[i - cs.len()]);
            }
        }
    }
}

} // verus!
