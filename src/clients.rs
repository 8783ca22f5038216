use vstd::prelude::*;

verus! {

/// What one non-blocking read from a client gave.
#[derive(PartialEq, Eq, Structural, Debug, Clone, Copy)]
pub enum ReadEvent {
    /// Some bytes arrived (their count).
    Data(usize),
    /// The read gave zero bytes: the peer closed the connection.
    Closed,
    /// Nothing to read yet.
    WouldBlock,
    /// The connection was reset or the pipe broke.
    Reset,
    /// Any other read error, fatal for the whole listener.
    Failed,
}

/// What one non-blocking accept on the listener gave.
#[derive(PartialEq, Eq, Structural, Debug, Clone, Copy)]
pub enum AcceptEvent {
    /// A new connection.
    Accepted,
    /// No connection is waiting.
    WouldBlock,
    /// Any other accept error, fatal for the whole listener.
    Failed,
}

/// What an accept means for the listener: `Some(true)` for a new connection,
/// `Some(false)` for none this time (not an error), `None` for a fatal error.
pub fn accept_outcome(e: AcceptEvent) -> (r: Option<bool>)
    ensures
        r == match e {
            AcceptEvent::Accepted => Some(true),
            AcceptEvent::WouldBlock => Some(false),
            AcceptEvent::Failed => None::<bool>,
        },
{
    match e {
        AcceptEvent::Accepted => Some(true),
        AcceptEvent::WouldBlock => Some(false),
        AcceptEvent::Failed => None,
    }
}

/// Whether a connection that gave `e` leaves the set.
pub open spec fn evicts(e: ReadEvent) -> bool {
    e is Closed || e is Reset
}

/// The clients of `c` whose events in `ev` keep them, in order.
pub open spec fn kept<T>(c: Seq<T>, ev: Seq<ReadEvent>) -> Seq<T>
    decreases c.len(),
{
    if c.len() == 0 {
        Seq::empty()
    } else {
        let prev = kept(c.drop_last(), ev);
        if evicts(ev[c.len() - 1]) {
            prev
        } else {
            prev.push(c.last())
        }
    }
}

/// Given the event of each client's read, drops the clients whose peer closed
/// or reset the connection and keeps the others in order; fails with the index
/// of the first client whose read failed otherwise.
pub fn retain_open<T>(clients: Vec<T>, events: &Vec<ReadEvent>) -> (r: Result<Vec<T>, usize>)
    requires
        clients.len() == events.len(),
    ensures
        match r {
            Ok(k) => (forall|i: int| 0 <= i < events.len() ==> !(#[trigger] events[i] is Failed))
                && k@ == kept(clients@, events@),
            Err(i) => i < events.len() && events[i as int] is Failed && forall|j: int|
                0 <= j < i ==> !(#[trigger] events[j] is Failed),
        },
{
    let ghost all = clients@;
    let mut rest = clients;
    let mut out: Vec<T> = Vec::new();
    let mut i: usize = 0;
    while i < events.len()
        invariant
            all.len() == events.len(),
            i <= events.len(),
            rest@ == all.subrange(i as int, all.len() as int),
            out@ == kept(all.subrange(0, i as int), events@),
            forall|j: int| 0 <= j < i ==> !(#[trigger] events[j] is Failed),
        decreases events.len() - i,
    {
        let c = rest.remove(0);
        proof {
            assert(all.subrange(0, i + 1).drop_last() =~= all.subrange(0, i as int));
        }
        match events[i] {
            ReadEvent::Failed => {
                return Err(i);
            },
            ReadEvent::Closed | ReadEvent::Reset => {},
            _ => {
                out.push(c);
            },
        }
        proof {
            assert(rest@ =~= all.subrange(i + 1, all.len() as int));
        }
        i = i + 1;
    }
    proof {
        assert(all.subrange(0, i as int) =~= all);
    }
    Ok(out)
}

} // verus!
