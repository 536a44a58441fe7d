//! The interactive loop: one prompt, one read and at most one send per turn.
use vstd::prelude::*;

verus! {

/// The characters that `char::is_whitespace` accepts: Unicode's White_Space.
pub open spec fn is_white_space(c: char) -> bool {
    let u = c as u32;
    (0x9 <= u <= 0xd) || u == 0x20 || u == 0x85 || u == 0xa0 || u == 0x1680 || (0x2000 <= u
        <= 0x200a) || u == 0x2028 || u == 0x2029 || u == 0x202f || u == 0x205f || u == 0x3000
}

/// `s` without the white space at its end.
pub open spec fn trimmed_end(s: Seq<char>) -> Seq<char>
    decreases s.len(),
{
    if s.len() > 0 && is_white_space(s.last()) {
        trimmed_end(s.drop_last())
    } else {
        s
    }
}

/// Relies on str::trim_end: the longest prefix that does not end in a
/// character that `char::is_whitespace` accepts.
#[verifier::external_body]
fn trim_trailing(s: &str) -> (r: &str)
    ensures
        r@ == trimmed_end(s@),
{
    s.trim_end()
}

/// What one read of the console gave.
pub enum InputEvent {
    /// A line, as read (its terminator included, if it has one).
    Line(String),
    /// The input was closed.
    EndOfInput,
    /// The read failed.
    ReadFailed,
}

/// What the loop does next.
#[derive(PartialEq, Eq, Debug)]
pub enum SessionAction {
    /// Publish this payload to the session's topic and read again.
    Send(String),
    /// Input is over: leave the loop.
    Stop,
    /// A read failed: end the run with an error.
    Abort,
}

/// The state of an interactive session.
pub struct Session {
    topic: String,
    finished: bool,
}

/// The answer to `event` of a session that is `finished` or not: whether it
/// is finished after it, and what is sent, if anything.
pub open spec fn respond(finished: bool, event: InputEvent) -> (bool, Option<Seq<char>>) {
    if finished {
        (true, None)
    } else {
        match event {
            InputEvent::Line(l) => (false, Some(trimmed_end(l@))),
            _ => (true, None),
        }
    }
}

/// The payloads sent while a session answers `events` in turn.
pub open spec fn session_sends(finished: bool, events: Seq<InputEvent>) -> Seq<Seq<char>>
    decreases events.len(),
{
    if events.len() == 0 {
        Seq::empty()
    } else {
        let (f, sent) = respond(finished, events[0]);
        let rest = session_sends(f, events.drop_first());
        if sent is Some {
            seq![sent->Some_0] + rest
        } else {
            rest
        }
    }
}

/// The lines read before the input first ended or failed, each without its
/// trailing white space.
pub open spec fn lines_before_end(events: Seq<InputEvent>) -> Seq<Seq<char>>
    decreases events.len(),
{
    if events.len() == 0 {
        Seq::empty()
    } else {
        match events[0] {
            InputEvent::Line(l) => seq![trimmed_end(l@)] + lines_before_end(events.drop_first()),
            _ => Seq::empty(),
        }
    }
}

impl Session {
    pub closed spec fn topic(&self) -> Seq<char> {
        self.topic@
    }

    pub closed spec fn is_finished(&self) -> bool {
        self.finished
    }

    /// A session that publishes to `topic`.
    pub fn new(topic: String) -> (r: Session)
        ensures
            r.topic() == topic@,
            !r.is_finished(),
    {
        Session { topic, finished: false }
    }

    /// The text shown before each read: the topic in brackets, then `> `.
    pub fn prompt(&self) -> (r: String)
        ensures
            r@ == "["@ + self.topic() + "]> "@,
    {
        let mut p = String::from_str("[");
        p.append(self.topic.as_str());
        p.append("]> ");
        proof {
            reveal_strlit("[");
            reveal_strlit("]> ");
        }
        p
    }

    /// Answers one read: a line is sent without its trailing white space;
    /// closed input stops the loop; a failed read aborts it. Once stopped or
    /// aborted, the session sends nothing more.
    pub fn on_input(&mut self, event: InputEvent) -> (r: SessionAction)
        ensures
            final(self).topic() == old(self).topic(),
            final(self).is_finished() == respond(old(self).is_finished(), event).0,
            respond(old(self).is_finished(), event).1 is Some <==> r is Send,
            r is Send ==> r->Send_0@ == respond(old(self).is_finished(), event).1->Some_0,
            !old(self).is_finished() && event is ReadFailed <==> r is Abort,
    {
        if self.finished {
            return SessionAction::Stop;
        }
        match event {
            InputEvent::Line(l) => SessionAction::Send(trim_trailing(l.as_str()).to_string()),
            InputEvent::EndOfInput => {
                self.finished = true;
                SessionAction::Stop
            },
            InputEvent::ReadFailed => {
                self.finished = true;
                SessionAction::Abort
            },
        }
    }
}

/// A session sends exactly one message per line read before the input ended
/// or failed, in the order of reading, and nothing after.
pub proof fn lemma_one_send_per_line(events: Seq<InputEvent>)
    ensures
        session_sends(false, events) == lines_before_end(events),
    decreases events.len(),
{
    if events.len() > 0 {
        lemma_one_send_per_line(events.drop_first());
        if !(events[0] is Line) {
            lemma_finished_sends_nothing(events.drop_first());
        }
    }
}

/// A session that has stopped or aborted sends nothing more, whatever it reads.
pub proof fn lemma_finished_sends_nothing(events: Seq<InputEvent>)
    ensures
        session_sends(true, events).len() == 0,
    decreases events.len(),
{
    if events.len() > 0 {
        lemma_finished_sends_nothing(events.drop_first());
    }
}

} // verus!
