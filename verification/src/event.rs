use vstd::prelude::*;

use crate::message::Message;
use crate::view::ViewNode;

verus! {

/// A key the terminal reports; decoding raw escape bytes into these is the
/// terminal collaborator's concern.
#[derive(Clone, Copy, Debug, PartialEq, Eq, Structural)]
pub enum Key {
    Char(char),
    Backspace,
    Delete,
    Home,
    End,
    Up,
    Down,
    Left,
    Right,
    Ctrl(char),
    PageUp,
    PageDown,
}

/// A named command with its arguments, ready to dispatch.
#[derive(Debug, Clone)]
pub struct Command {
    pub name: String,
    pub args: Vec<String>,
}

impl Command {
    /// Packs a command name and its arguments.
    pub fn new(command: String, args: Vec<String>) -> (r: Command)
        ensures
            r.name@ == command@,
            r.args == args,
    {
        Command { name: command, args }
    }
}

/// What the input line can produce once submitted: a command to run, or a
/// message to send.
pub enum CommandOrMessage {
    Command(Command),
    Message(Message),
}

/// What the event loop feeds into the root view, one at a time.
pub enum Event {
    Key(Key),
    Resize(u16, u16),
    Message(Message),
    Connected(crate::message::Jid),
    AddWindow(String, ViewNode),
    ChangeWindow(String),
    Win(String),
    ReadPassword(crate::command::Command),
    Completed(String),
    Quit,
}

/// What the core asks the surrounding loop to do in return.
pub enum Action {
    /// Feed this event back into the loop.
    Emit(Event),
    /// Hand this message to the transport.
    SendMessage(Message),
    /// Run this tokenized command.
    RunCommand(crate::command::Command),
    /// Show this tokenizer error to the user.
    CommandError(String),
    /// Ask the history store for older messages of this window.
    LoadHistory(String),
    /// Ask the completion provider for candidates for this command.
    NeedCompletion(crate::command::Command),
    /// Report this line to the user.
    Log(String),
    /// Stop the loop.
    Quit,
}

/// One slot of the decoder's queue: a decoded event, or the end of the
/// stream once the cancellation flag was observed.
pub enum QItem {
    Item(Key),
    Shut,
}

/// What one `decode` call hands back.
pub enum Decoded {
    /// The next event: a key for the root view.
    Item(Key),
    /// Nothing decoded yet; read more input.
    Pending,
    /// The stream has ended: the loop should terminate normally.
    Closed,
}

/// Turns read keys into a queue of events, and surfaces a terminal "closed"
/// condition once the shared cancellation flag has been cleared.
pub struct KeyCodec {
    pub queue: Vec<QItem>,
    pub running: bool,
}

/// The queue after one decode step: the read keys are appended while the
/// codec still runs; once stopped, an end marker is appended instead.
pub open spec fn spec_fed(q: Seq<QItem>, keys: Seq<Key>, running: bool) -> Seq<QItem>
    decreases keys.len(),
{
    if !running {
        q.push(QItem::Shut)
    } else if keys.len() == 0 {
        q
    } else {
        spec_fed(q.push(QItem::Item(keys[0])), keys.subrange(1, keys.len() as int), running)
    }
}

impl KeyCodec {
    /// A codec with an empty queue, running until it is stopped.
    pub fn new() -> (r: KeyCodec)
        ensures
            r.queue@.len() == 0,
            r.running,
    {
        KeyCodec { queue: Vec::new(), running: true }
    }

    /// Observes the cancellation flag: every later decode ends the stream.
    pub fn stop(&mut self)
        ensures
            !final(self).running,
            final(self).queue == old(self).queue,
    {
        self.running = false;
    }

    /// Consumes the keys read since the last call and hands back the next
    /// queued event; pending input stays queued in order.  Once stopped, the
    /// queued events drain first and then the closed condition surfaces.
    pub fn decode(&mut self, keys: Vec<Key>) -> (r: Decoded)
        ensures
            final(self).running == old(self).running,
            ({
                let fed = spec_fed(old(self).queue@, keys@, old(self).running);
                if fed.len() == 0 {
                    r is Pending && final(self).queue@ == fed
                } else {
                    &&& final(self).queue@ == fed.subrange(1, fed.len() as int)
                    &&& r == match fed[0] {
                        QItem::Item(k) => Decoded::Item(k),
                        QItem::Shut => Decoded::Closed,
                    }
                }
            }),
    {
        if self.running {
            let ghost gq = self.queue@;
            let ghost gkeys = keys@;
            let mut i: usize = 0;
            let n = keys.len();
            proof {
                assert(gkeys.subrange(0, n as int) =~= gkeys);
            }
            while i < n
                invariant
                    i <= n,
                    n == gkeys.len(),
                    keys@ == gkeys,
                    self.running == old(self).running,
                    old(self).running,
                    spec_fed(gq, gkeys, true) == spec_fed(
                        self.queue@,
                        gkeys.subrange(i as int, n as int),
                        true,
                    ),
                decreases n - i,
            {
                let k = keys[i];
                proof {
                    let rest = gkeys.subrange(i as int, n as int);
                    assert(rest[0] == k);
                    assert(rest.subrange(1, rest.len() as int) =~= gkeys.subrange(
                        i as int + 1,
                        n as int,
                    ));
                }
                self.queue.push(QItem::Item(k));
                i = i + 1;
            }
            proof {
                assert(gkeys.subrange(n as int, n as int) =~= Seq::<Key>::empty());
            }
        } else {
            self.queue.push(QItem::Shut);
        }
        if self.queue.len() > 0 {
            let front = self.queue.remove(0);
            match front {
                QItem::Item(k) => Decoded::Item(k),
                QItem::Shut => Decoded::Closed,
            }
        } else {
            Decoded::Pending
        }
    }
}

} // verus!
