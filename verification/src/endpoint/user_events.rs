//! User events: how they are fired, and how they are taken in.

use crate::action::{Action, Frame, EVENT_RANK};
use crate::clock;
use crate::clock::{ltime_is_acceptable, next_ltime, witness, LamportTime};
use crate::endpoint::{Endpoint, Machine};
use crate::id::{Id, Value};
use crate::octets;
use crate::octets::{bytes_len, share, string_len};
use crate::query::Error;
use crate::time::Instant;
use crate::typed::{UserEvent, UserEventMessage};
use bytes::Bytes;
use vstd::prelude::*;

verus! {

/// How many bytes a name and a payload take together. The largest count of all
/// stands for everything beyond it.
pub open spec fn event_size(name: Seq<char>, payload: Bytes) -> usize {
    let n = octets::name_len(name) + octets::octets(payload).len();
    if n <= usize::MAX {
        n as usize
    } else {
        usize::MAX
    }
}

fn size_of_event(name: &String, payload: &Bytes) -> (r: usize)
    ensures
        r == event_size(name@, *payload),
{
    string_len(name).saturating_add(bytes_len(payload))
}

/// A user event as the ring remembers it.
pub open spec fn remembered(msg: UserEventMessage) -> UserEvent {
    UserEvent { name: msg.name, payload: msg.payload }
}

impl<I, A, G> Machine<I, A, G> {
    /// Whether the time of a user event is in range, and its size too.
    pub open spec fn plausible_event(self, msg: UserEventMessage) -> bool {
        clock::acceptable(msg.ltime.0) && event_size(msg.name@, msg.payload)
            <= self.opts.max_user_event_size
    }

    /// Whether a user event is new, and so is to be passed on.
    pub open spec fn takes_user_event(self, msg: UserEventMessage) -> bool {
        self.plausible_event(msg) && self.seen_events.admits(
            clock::witnessed(self.event_clock, msg.ltime.0),
            msg.ltime.0,
            remembered(msg),
        )
    }

    /// The machine after a user event. One that is out of range or too large changes
    /// nothing; one that was seen advances the event clock only.
    pub open spec fn after_user_event(self, msg: UserEventMessage) -> Self {
        let seen = Machine {
            event_clock: clock::witnessed(self.event_clock, msg.ltime.0),
            ..self
        };
        if !self.plausible_event(msg) {
            self
        } else if !self.takes_user_event(msg) {
            seen
        } else {
            Machine {
                seen_events: self.seen_events.recorded(msg.ltime.0, remembered(msg)),
                dirty: true,
                ..seen
            }.emitting_user(msg)
        }
    }

    /// The machine after it fired a user event of its own.
    pub open spec fn firing(self, msg: UserEventMessage, frame: Bytes) -> Self {
        Machine {
            event_clock: clock::ticked(self.event_clock),
            ..self
        }.dirtied().after_user_event(msg).asking(
            Action::Broadcast { rank: EVENT_RANK, frame: Frame::Ready(frame) },
        )
    }

    /// The message of a user event that is about to be fired. The event clock is read and
    /// not advanced.
    pub open spec fn stamping_event(
        self,
        name: String,
        payload: Bytes,
        coalesce: bool,
    ) -> UserEventMessage {
        UserEventMessage { ltime: LamportTime(self.event_clock), cc: coalesce, name, payload }
    }

    /// What is answered to the wish to fire a user event.
    pub open spec fn event_verdict(self, name: Seq<char>, payload: Bytes) -> Result<(), Error> {
        if self.is_down() {
            Err(Error::Shutdown)
        } else if event_size(name, payload) > self.opts.max_user_event_size {
            Err(
                Error::UserEventTooLarge(event_size(name, payload), self.opts.max_user_event_size),
            )
        } else {
            Ok(())
        }
    }

    /// What is answered once a user event was encoded.
    pub open spec fn encoded_verdict(self, encoded: Option<Bytes>) -> Result<(), Error> {
        match encoded {
            None => Err(Error::UserEventEncode),
            Some(frame) => if octets::octets(frame).len() > self.opts.max_user_event_size {
                Err(
                    Error::UserEventTooLarge(
                        octets::octets(frame).len() as usize,
                        self.opts.max_user_event_size,
                    ),
                )
            } else {
                Ok(())
            },
        }
    }
}

impl<I: Id, A: Value, G> Endpoint<I, A, G> {
    /// Takes in a user event, and returns `true` if it is to be passed on.
    pub fn handle_user_event(&mut self, msg: UserEventMessage) -> (r: bool)
        ensures
            r == old(self)@.takes_user_event(msg),
            final(self)@ == old(self)@.after_user_event(msg),
    {
        let ghost before = self@;
        let ltime: u64 = msg.ltime.0;
        if !ltime_is_acceptable(ltime) {
            return false;
        }
        if size_of_event(&msg.name, &msg.payload) > self.opts.max_user_event_size {
            return false;
        }
        witness(&mut self.event_clock, ltime);
        let cur_time: u64 = self.event_clock;
        let ev = UserEvent { name: msg.name.clone(), payload: share(&msg.payload) };
        if !self.event_buffer.witness_event(cur_time, ltime, ev) {
            assert(self@ =~= before.after_user_event(msg));
            return false;
        }
        self.mark_local_state_dirty();
        self.emit_user(msg);
        assert(self@ =~= before.after_user_event(msg));
        true
    }

    /// Begins to fire a user event: stamps it with what the event clock reads, and returns
    /// the message, for the driver to encode and to hand to [`Endpoint::fire_user_event`],
    /// which advances the clock.
    pub fn user_event(&mut self, name: String, payload: Bytes, coalesce: bool, now: Instant) -> (r:
        Result<UserEventMessage, Error>)
        ensures
            match old(self)@.event_verdict(name@, payload) {
                Ok(_) => r == Ok::<UserEventMessage, Error>(
                    UserEventMessage {
                        ltime: LamportTime(old(self)@.event_clock),
                        cc: coalesce,
                        name,
                        payload,
                    },
                ),
                Err(e) => r == Err::<UserEventMessage, Error>(e),
            },
            r matches Ok(msg) ==> msg == old(self)@.stamping_event(name, payload, coalesce),
            final(self)@ == old(self)@.at(now),
    {
        self.drain_now = now;
        if let Err(e) = self.ensure_not_shutdown() {
            return Err(e);
        }
        let max_size: usize = self.opts.max_user_event_size;
        let pre_len: usize = size_of_event(&name, &payload);
        if pre_len > max_size {
            return Err(Error::UserEventTooLarge(pre_len, max_size));
        }
        Ok(UserEventMessage { ltime: LamportTime(self.event_clock), cc: coalesce, name, payload })
    }

    /// Fires a user event that was stamped, where `encoded` is its frame, if it could
    /// be encoded: advances the event clock, takes the event in, and asks for it to be
    /// broadcast. One whose frame is too large changes nothing.
    pub fn fire_user_event(&mut self, msg: UserEventMessage, encoded: Option<Bytes>) -> (r: Result<
        (),
        Error,
    >)
        ensures
            r == old(self)@.encoded_verdict(encoded),
            final(self)@ == (if r is Ok {
                old(self)@.firing(msg, encoded->0)
            } else {
                old(self)@
            }),
    {
        let max_size: usize = self.opts.max_user_event_size;
        match encoded {
            None => Err(Error::UserEventEncode),
            Some(frame) => {
                let n: usize = bytes_len(&frame);
                if n > max_size {
                    return Err(Error::UserEventTooLarge(n, max_size));
                }
                next_ltime(&mut self.event_clock);
                self.mark_local_state_dirty();
                self.handle_user_event(msg);
                self.ask(Action::Broadcast { rank: EVENT_RANK, frame: Frame::Ready(frame) });
                Ok(())
            },
        }
    }
}

} // verus!
