//! What the server sends over one connection, and in which order.
use vstd::prelude::*;

verus! {

/// Something to send: a ping, or a message of the server.
#[derive(Debug)]
pub enum Due<T> {
    Ping,
    Message(T),
}

/// What is due over a connection.
///
/// A new client is first told of all devices. A ping has priority over that and
/// over everything else, since the client could time out otherwise.
#[derive(Debug)]
pub struct Outbox<T> {
    pending: Vec<T>,
}

impl<T> View for Outbox<T> {
    type V = Seq<T>;

    closed spec fn view(&self) -> Seq<T> {
        self.pending@
    }
}

/// What is sent next: a ping that is due, or else the first message that still
/// has to be sent. Where there is neither, the next message is waited for.
pub open spec fn next_of<T>(pending: Seq<T>, ping_due: bool) -> Option<Due<T>> {
    if ping_due {
        Some(Due::Ping)
    } else if pending.len() > 0 {
        Some(Due::Message(pending[0]))
    } else {
        None
    }
}

/// What still has to be sent after that.
pub open spec fn pending_after<T>(pending: Seq<T>, ping_due: bool) -> Seq<T> {
    if ping_due || pending.len() == 0 {
        pending
    } else {
        pending.skip(1)
    }
}

impl<T> Outbox<T> {
    /// Some messages have to be sent first.
    pub fn new(pending: Vec<T>) -> (outbox: Self)
        ensures
            outbox@ == pending@,
    {
        Outbox { pending }
    }

    /// Take what is sent next.
    pub fn next(&mut self, ping_due: bool) -> (due: Option<Due<T>>)
        ensures
            due == next_of(old(self)@, ping_due),
            final(self)@ == pending_after(old(self)@, ping_due),
    {
        if ping_due {
            return Some(Due::Ping);
        }
        if self.pending.len() == 0 {
            return None;
        }
        let ghost before = self.pending@;
        let message = self.pending.remove(0);
        assert(self@ =~= before.skip(1));
        Some(Due::Message(message))
    }
}

/// Whether an answer has to be waited for once something has been sent.
pub open spec fn awaits_answer<T>(due: Due<T>) -> bool {
    due is Ping
}

/// Whether an answer has to be waited for once something has been sent.
pub fn awaits_pong<T>(due: &Due<T>) -> (awaited: bool)
    ensures
        awaited == awaits_answer(*due),
{
    matches!(due, Due::Ping)
}

/// The messages that are sent in some turns, each of which may find a ping due,
/// and what is left after them.
pub open spec fn after_turns<T>(pending: Seq<T>, turns: Seq<bool>) -> (Seq<T>, Seq<T>)
    decreases turns.len(),
{
    if turns.len() == 0 {
        (Seq::empty(), pending)
    } else {
        let (sent, left) = after_turns(pending, turns.drop_last());
        let ping_due = turns.last();
        (
            match next_of(left, ping_due) {
                Some(Due::Message(message)) => sent.push(message),
                _ => sent,
            },
            pending_after(left, ping_due),
        )
    }
}

/// Pings delay messages but lose none and change no order: what has been sent
/// and what is left always make up what was to be sent.
pub proof fn pings_lose_no_message<T>(pending: Seq<T>, turns: Seq<bool>)
    ensures
        ({
            let (sent, left) = after_turns(pending, turns);
            sent + left == pending
        }),
    decreases turns.len(),
{
    let (sent, left) = after_turns(pending, turns);
    if turns.len() == 0 {
        assert(sent + left =~= pending);
    } else {
        pings_lose_no_message(pending, turns.drop_last());
        let (sent_before, left_before) = after_turns(pending, turns.drop_last());
        assert(sent + left =~= sent_before + left_before);
    }
}

/// A ping that is due is sent before anything else, and costs no message.
pub proof fn pings_come_first<T>(pending: Seq<T>)
    ensures
        next_of(pending, true) == Some(Due::<T>::Ping),
        pending_after(pending, true) == pending,
{
}

/// Without a ping the messages go out in their order, one at a time, and a message
/// that is waited for goes out only once all of these have. Only a ping is
/// answered.
pub proof fn messages_go_out_in_their_order<T>(pending: Seq<T>, due: Due<T>)
    ensures
        next_of(pending, false) is None <==> pending.len() == 0,
        pending.len() > 0 ==> {
            &&& next_of(pending, false) == Some(Due::Message(pending[0]))
            &&& pending_after(pending, false).len() == pending.len() - 1
            &&& forall|i: int|
                0 <= i < pending.len() - 1 ==> #[trigger] pending_after(pending, false)[i]
                    == pending[i + 1]
        },
        awaits_answer(due) <==> due is Ping,
{
}

} // verus!
