//! The audio host as the engine sees it: ports are opened and closed by a worker
//! on another thread, which answers when they are there.

use crossbeam_channel::{Receiver, Sender};
use vstd::prelude::*;

use crate::channel::{
    delivery, tried, try_receive, try_send, Incoming, Outgoing, SendFailure,
};
use crate::ports::{ClientChange, LooperPorts};

verus! {

/// An answer of the worker.
#[derive(Debug, PartialEq, Eq)]
pub enum ClientChangeResponse<P> {
    /// The two ports of a looper are open.
    PortAdded(u32, P, P),
}

/// The host. `P` is a port.
#[verifier::reject_recursive_types(P)]
pub struct JackHost<P> {
    pub looper_ports: LooperPorts<P>,
    /// Where changes are asked for.
    pub port_change_tx: Outgoing<ClientChange<P>>,
    /// Where answers come in.
    pub port_change_resp: Incoming<ClientChangeResponse<P>>,
}

/// The ports after an answer of the worker, or after none.
pub open spec fn after_response<P>(
    ports: Map<u32, (P, P)>,
    received: Option<ClientChangeResponse<P>>,
) -> Map<u32, (P, P)> {
    match received {
        Some(ClientChangeResponse::PortAdded(id, left, right)) => ports.insert(id, (left, right)),
        None => ports,
    }
}

/// Whether, between two moments, the worker was asked for a change once, with
/// this result, if there was one to ask for. A request that the worker did not
/// get came back.
pub open spec fn asked<P>(
    before: Outgoing<ClientChange<P>>,
    after: Outgoing<ClientChange<P>>,
    change: Option<ClientChange<P>>,
    r: Result<(), SendFailure<ClientChange<P>>>,
) -> bool {
    match change {
        Some(c) => {
            &&& tried(before, after, c, delivery(r))
            &&& r is Err ==> r->Err_0.message() == c
        },
        None => r is Ok && after == before,
    }
}

impl<P> JackHost<P> {
    /// A host without ports.
    pub fn new(
        port_change_tx: Sender<ClientChange<P>>,
        port_change_resp: Receiver<ClientChangeResponse<P>>,
    ) -> (r: Self)
        ensures
            r.looper_ports@ == Map::<u32, (P, P)>::empty(),
            r.port_change_tx.sender() == port_change_tx,
            r.port_change_tx.attempts().len() == 0,
            r.port_change_resp.receiver() == port_change_resp,
            r.port_change_resp.polled().len() == 0,
    {
        JackHost {
            looper_ports: LooperPorts::new(),
            port_change_tx: Outgoing::new(port_change_tx),
            port_change_resp: Incoming::new(port_change_resp),
        }
    }

    fn ask(&mut self, change: Option<ClientChange<P>>) -> (r: Result<
        (),
        SendFailure<ClientChange<P>>,
    >)
        ensures
            asked(old(self).port_change_tx, final(self).port_change_tx, change, r),
            final(self).looper_ports == old(self).looper_ports,
            final(self).port_change_resp == old(self).port_change_resp,
    {
        match change {
            Some(c) => try_send(&mut self.port_change_tx, c),
            None => Ok(()),
        }
    }

    /// Has the ports of a looper opened, unless it has them. A request that the
    /// worker does not get comes back; the caller may drop it.
    pub fn add_looper(&mut self, id: u32) -> (r: Result<(), SendFailure<ClientChange<P>>>)
        ensures
            asked(
                old(self).port_change_tx,
                final(self).port_change_tx,
                old(self).looper_ports.to_add(id),
                r,
            ),
            final(self).looper_ports == old(self).looper_ports,
            final(self).port_change_resp == old(self).port_change_resp,
    {
        let change = self.looper_ports.add_looper(id);
        self.ask(change)
    }

    /// Gives up the ports of a looper, if it has any, and has them closed. A
    /// request that the worker does not get comes back; the caller may drop it.
    pub fn remove_looper(&mut self, id: u32) -> (r: Result<(), SendFailure<ClientChange<P>>>)
        ensures
            asked(
                old(self).port_change_tx,
                final(self).port_change_tx,
                old(self).looper_ports.to_remove(id),
                r,
            ),
            final(self).looper_ports@ == old(self).looper_ports@.remove(id),
            final(self).port_change_resp == old(self).port_change_resp,
    {
        let change = self.looper_ports.remove_looper(id);
        self.ask(change)
    }

    /// Takes in an answer of the worker, if there is one.
    pub fn take_response(&mut self, received: Option<ClientChangeResponse<P>>)
        ensures
            final(self).looper_ports@ == after_response(old(self).looper_ports@, received),
            final(self).port_change_tx == old(self).port_change_tx,
            final(self).port_change_resp == old(self).port_change_resp,
    {
        match received {
            Some(ClientChangeResponse::PortAdded(id, left, right)) => {
                self.looper_ports.port_added(id, left, right);
            },
            None => {},
        }
    }

    /// Takes in the next answer of the worker, if there is one, and finds the
    /// ports of a looper. There are none to write to outside of a period.
    pub fn output_for_looper(&mut self, id: u32, in_period: bool) -> (r: Option<&mut (P, P)>)
        ensures
            final(self).port_change_tx == old(self).port_change_tx,
            ({
                let received = final(self).port_change_resp.polled().last();
                let ports = after_response(old(self).looper_ports@, received);
                &&& final(self).port_change_resp.receiver() == old(
                    self,
                ).port_change_resp.receiver()
                &&& final(self).port_change_resp.polled() == old(
                    self,
                ).port_change_resp.polled().push(received)
                &&& match r {
                    Some(pair) => {
                        &&& in_period && ports.contains_key(id)
                        &&& *pair == ports[id]
                        &&& final(self).looper_ports@ == ports.insert(id, *final(pair))
                    },
                    None => {
                        &&& !(in_period && ports.contains_key(id))
                        &&& final(self).looper_ports@ == ports
                    },
                }
            }),
    {
        let received = try_receive(&mut self.port_change_resp);
        self.take_response(received);
        if in_period {
            self.looper_ports.output_for_looper(id)
        } else {
            None
        }
    }
}

} // verus!
